//! Tool-use authority: who may run a tool, and whose approval admits it.
use vstd::prelude::*;
use crate::error::{conflict, Error, Result};
use crate::models::Actor;
use crate::store::{Data, Operation, Policy, PolicyEntry};
use crate::text::{seq_has, vec_contains};

verus! {

#[derive(Clone, Copy, Debug, PartialEq, Eq, Structural)]
pub enum Admission {
    Allow,
    Wait,
    Deny,
}

/// The last recorded decision approves exactly this request, was made by a
/// current approver, and is valid at `at`.
pub open spec fn approved_at(policy: Policy, operation: Operation, at: u64) -> bool {
    match operation.approval {
        None => false,
        Some(a) => {
            &&& a.request_digest@ == operation.request_digest@
            &&& a.decisions@.len() > 0
            &&& {
                let d = a.decisions@.last();
                &&& d.approved
                &&& d.request_digest@ == operation.request_digest@
                &&& d.decided_at <= at
                &&& at < d.expires_at
                &&& seq_has(policy.approvers@, d.actor_id@)
            }
        },
    }
}

pub open spec fn admission(policy: Option<Policy>, actor: Seq<char>, operation: Operation, at: u64) -> Admission {
    match policy {
        None => Admission::Deny,
        Some(p) => if !seq_has(p.actors@, actor) {
            Admission::Deny
        } else if !p.require_approval || approved_at(p, operation, at) {
            Admission::Allow
        } else {
            Admission::Wait
        },
    }
}

/// The last decision on the operation approves this very request, was made by
/// one of the policy's approvers, and is in force at `at`: made no later than
/// `at`, and expiring after it.
pub open spec fn decision_in_force(policy: Policy, operation: Operation, at: u64) -> bool {
    &&& operation.approval is Some
    &&& operation.approval->0.request_digest@ == operation.request_digest@
    &&& operation.approval->0.decisions@.len() > 0
    &&& operation.approval->0.decisions@.last().approved
    &&& operation.approval->0.decisions@.last().request_digest@ == operation.request_digest@
    &&& operation.approval->0.decisions@.last().decided_at <= at
    &&& at < operation.approval->0.decisions@.last().expires_at
    &&& seq_has(policy.approvers@, operation.approval->0.decisions@.last().actor_id@)
}

/// Admission lets a call run only for an actor of its policy, and, where the
/// policy requires approval, only under an approval in force at that time;
/// an actor of such a policy without one waits. No policy, or an actor outside
/// it, is denied.
pub proof fn allowed_calls_are_authorized(policy: Policy, actor: Seq<char>, operation: Operation, at: u64)
    ensures
        admission(Some(policy), actor, operation, at) == Admission::Allow ==> seq_has(policy.actors@, actor)
            && (policy.require_approval ==> decision_in_force(policy, operation, at)),
        seq_has(policy.actors@, actor) && policy.require_approval && !decision_in_force(policy, operation, at)
            ==> admission(Some(policy), actor, operation, at) == Admission::Wait,
        !seq_has(policy.actors@, actor) ==> admission(Some(policy), actor, operation, at) == Admission::Deny,
        seq_has(policy.actors@, actor) && (!policy.require_approval || decision_in_force(policy, operation, at))
            ==> admission(Some(policy), actor, operation, at) == Admission::Allow,
        admission(None, actor, operation, at) == Admission::Deny,
{
}

/// An approval that expired at or before `at` never admits a call that needs
/// approval: such a call waits to be approved again.
pub proof fn expired_approvals_do_not_admit(policy: Policy, actor: Seq<char>, operation: Operation, at: u64)
    requires
        policy.require_approval,
        seq_has(policy.actors@, actor),
        operation.approval matches Some(a) && a.decisions@.len() > 0 && a.decisions@.last().expires_at <= at,
    ensures
        admission(Some(policy), actor, operation, at) == Admission::Wait,
{
    allowed_calls_are_authorized(policy, actor, operation, at);
}

/// Decide whether `actor` may execute `operation` at time `at` under `policy`.
/// Without a policy, or outside its actors, the call is denied; a policy that
/// requires approval admits only a valid, unexpired approval of this request.
pub fn admit_operation(policy: Option<&Policy>, actor: &String, operation: &Operation, at: u64) -> (r: Admission)
    ensures
        r == admission(match policy { Some(p) => Some(*p), None => None }, actor@, *operation, at),
        r == Admission::Allow ==> (policy matches Some(p) && seq_has(p.actors@, actor@)
            && (p.require_approval ==> decision_in_force(*p, *operation, at))),
        (policy matches Some(p) && seq_has(p.actors@, actor@) && p.require_approval && !decision_in_force(*p, *operation, at))
            ==> r == Admission::Wait,
        (policy matches Some(p) && seq_has(p.actors@, actor@) && (!p.require_approval || decision_in_force(*p, *operation, at)))
            ==> r == Admission::Allow,
        (policy is None || (policy matches Some(p) && !seq_has(p.actors@, actor@))) ==> r == Admission::Deny,
{
    proof {
        match policy {
            Some(p) => allowed_calls_are_authorized(*p, actor@, *operation, at),
            None => {},
        }
    }
    let policy = match policy {
        None => return Admission::Deny,
        Some(p) => p,
    };
    if !vec_contains(&policy.actors, actor) {
        return Admission::Deny;
    }
    if !policy.require_approval {
        return Admission::Allow;
    }
    let valid = match &operation.approval {
        None => false,
        Some(a) => {
            if a.request_digest != operation.request_digest || a.decisions.len() == 0 {
                false
            } else {
                let d = &a.decisions[a.decisions.len() - 1];
                d.approved && d.request_digest == operation.request_digest && d.decided_at <= at
                    && at < d.expires_at && vec_contains(&policy.approvers, &d.actor_id)
            }
        },
    };
    if valid {
        Admission::Allow
    } else {
        Admission::Wait
    }
}

/// Records outside the actor's workspace are reported as not found.
pub fn require_workspace(actor: &Actor, workspace: &String) -> (r: Result<()>)
    ensures
        r is Ok <==> actor.workspace_id@ == workspace@,
        r is Err ==> r == Err::<(), Error>(Error::NotFound),
{
    if actor.workspace_id != *workspace {
        return Err(Error::NotFound);
    }
    Ok(())
}

pub open spec fn same_policy(a: Policy, b: Policy) -> bool {
    &&& a.require_approval == b.require_approval
    &&& a.actors@.len() == b.actors@.len()
    &&& a.approvers@.len() == b.approvers@.len()
    &&& forall|i: int| 0 <= i < a.actors@.len() ==> (#[trigger] a.actors@[i])@ == b.actors@[i]@
    &&& forall|i: int| 0 <= i < a.approvers@.len() ==> (#[trigger] a.approvers@[i])@ == b.approvers@[i]@
}

fn same_strings(a: &Vec<String>, b: &Vec<String>) -> (r: bool)
    ensures
        r == (a@.len() == b@.len() && forall|i: int| 0 <= i < a@.len() ==> (#[trigger] a@[i])@ == b@[i]@),
{
    if a.len() != b.len() {
        return false;
    }
    let mut i: usize = 0;
    while i < a.len()
        invariant
            a@.len() == b@.len(),
            i <= a@.len(),
            forall|k: int| 0 <= k < i ==> (#[trigger] a@[k])@ == b@[k]@,
        decreases a@.len() - i,
    {
        if a[i] != b[i] {
            return false;
        }
        i = i + 1;
    }
    true
}

pub fn policy_equals(a: &Policy, b: &Policy) -> (r: bool)
    ensures
        r == same_policy(*a, *b),
{
    a.require_approval == b.require_approval && same_strings(&a.actors, &b.actors)
        && same_strings(&a.approvers, &b.approvers)
}

impl Data {
    pub open spec fn has_policy(&self, workspace: Seq<char>, id: Seq<char>) -> bool {
        exists|i: int| 0 <= i < self.policies@.len() && self.policies@[i].workspace@ == workspace
            && self.policies@[i].id@ == id
    }

    /// The first policy stored under the key.
    pub open spec fn policy_index(&self, workspace: Seq<char>, id: Seq<char>) -> int {
        choose|i: int| 0 <= i < self.policies@.len() && self.policies@[i].workspace@ == workspace
            && self.policies@[i].id@ == id
    }

    pub open spec fn policy(&self, workspace: Seq<char>, id: Seq<char>) -> Option<Policy> {
        if self.has_policy(workspace, id) {
            Some(self.policies@[self.policy_index(workspace, id)].policy)
        } else {
            None
        }
    }

    pub fn find_policy(&self, workspace: &String, id: &String) -> (r: Option<usize>)
        requires
            self.wf(),
        ensures
            r is Some <==> self.has_policy(workspace@, id@),
            r matches Some(i) ==> i == self.policy_index(workspace@, id@) && i < self.policies@.len(),
    {
        let mut i: usize = 0;
        while i < self.policies.len()
            invariant
                self.wf(),
                i <= self.policies@.len(),
                forall|k: int| 0 <= k < i ==> !(self.policies@[k].workspace@ == workspace@
                    && self.policies@[k].id@ == id@),
            decreases self.policies@.len() - i,
        {
            if self.policies[i].workspace == *workspace && self.policies[i].id == *id {
                assert(self.has_policy(workspace@, id@));
                let ghost j = self.policy_index(workspace@, id@);
                assert(self.policies@[i as int].workspace@ == workspace@);
                assert(self.policies@[i as int].id@ == id@);
                assert(j == i);
                return Some(i);
            }
            i = i + 1;
        }
        None
    }

    /// Startup publication that cannot overwrite an existing policy. Explicit
    /// administrators may still use `set_policy` for intentional revocation.
    pub fn ensure_policy(&mut self, workspace: &String, id: &String, policy: Policy) -> (r: Result<()>)
        requires
            old(self).wf(),
        ensures
            final(self).wf(),
            crate::store::definitions_extended(*old(self), *final(self)),
            match old(self).policy(workspace@, id@) {
                Some(existing) => {
                    &&& final(self).policies == old(self).policies
                    &&& (r is Ok <==> same_policy(existing, policy))
                    &&& r is Err ==> r matches Err(Error::Conflict(_))
                },
                None => {
                    &&& r is Ok
                    &&& final(self).policies@ == old(self).policies@.push(
                        PolicyEntry { workspace: final(self).policies@.last().workspace, id: final(self).policies@.last().id, policy })
                    &&& final(self).policies@.last().workspace@ == workspace@
                    &&& final(self).policies@.last().id@ == id@
                },
            },
            final(self).runs == old(self).runs,
            final(self).operations == old(self).operations,
            final(self).logs == old(self).logs,
    {
        match self.find_policy(workspace, id) {
            Some(i) => {
                if policy_equals(&self.policies[i].policy, &policy) {
                    Ok(())
                } else {
                    Err(conflict("policy configuration changed; use a new version or explicit policy update"))
                }
            },
            None => {
                self.policies.push(PolicyEntry { workspace: workspace.clone(), id: id.clone(), policy });
                Ok(())
            },
        }
    }

    /// Trusted configuration API: replace (or add) the policy under the key.
    pub fn set_policy(&mut self, workspace: &String, id: &String, policy: Policy)
        requires
            old(self).wf(),
        ensures
            final(self).wf(),
            final(self).policy(workspace@, id@) == Some(policy),
            forall|w: Seq<char>, k: Seq<char>| !(w == workspace@ && k == id@)
                ==> #[trigger] final(self).policy(w, k) == old(self).policy(w, k),
            final(self).runs == old(self).runs,
            final(self).operations == old(self).operations,
            final(self).logs == old(self).logs,
    {
        let ghost before = self.policies@;
        match self.find_policy(workspace, id) {
            Some(i) => {
                self.policies[i].policy = policy;
                assert(self.policies@[i as int].workspace@ == workspace@);
                assert(self.policies@[i as int].id@ == id@);
                assert(self.has_policy(workspace@, id@));
                assert(self.policy_index(workspace@, id@) == i);
                assert forall|w: Seq<char>, k: Seq<char>| !(w == workspace@ && k == id@)
                    implies #[trigger] self.policy(w, k) == old(self).policy(w, k) by {
                    if old(self).has_policy(w, k) {
                        let j = old(self).policy_index(w, k);
                        assert(self.policies@[j].workspace@ == w && self.policies@[j].id@ == k);
                        assert(self.has_policy(w, k));
                        let j2 = self.policy_index(w, k);
                        assert(j == j2);
                    } else if self.has_policy(w, k) {
                        let j2 = self.policy_index(w, k);
                        assert(before[j2].workspace@ == w && before[j2].id@ == k);
                    }
                }
            },
            None => {
                self.policies.push(PolicyEntry { workspace: workspace.clone(), id: id.clone(), policy });
                let ghost last = before.len() as int;
                assert(self.policies@[last].workspace@ == workspace@);
                assert(self.policies@[last].id@ == id@);
                assert(self.has_policy(workspace@, id@));
                assert(self.policy_index(workspace@, id@) == last);
                assert forall|w: Seq<char>, k: Seq<char>| !(w == workspace@ && k == id@)
                    implies #[trigger] self.policy(w, k) == old(self).policy(w, k) by {
                    if old(self).has_policy(w, k) {
                        let j = old(self).policy_index(w, k);
                        assert(self.policies@[j] == before[j]);
                        assert(self.has_policy(w, k));
                        let j2 = self.policy_index(w, k);
                        assert(j == j2);
                    } else if self.has_policy(w, k) {
                        let j2 = self.policy_index(w, k);
                        assert(j2 != last);
                        assert(before[j2] == self.policies@[j2]);
                    }
                }
            },
        }
    }
}

} // verus!
