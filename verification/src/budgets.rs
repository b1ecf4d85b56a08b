//! Per-run execution budgets and shared model-call budgets.
use vstd::prelude::*;
use vstd::string::StringSliceAdditionalSpecFns;
use crate::error::{conflict, invalid, Error, Result};
use crate::store::{BudgetEntry, Data, ModelBudget, ModelBudgetBinding, OperationRequest, Run};
use crate::text::{blank, is_blank, str_equal};

verus! {

pub open spec fn count_models(s: Seq<OperationRequest>) -> nat
    decreases s.len(),
{
    if s.len() == 0 {
        0
    } else {
        count_models(s.drop_last()) + if s.last() is Model { 1nat } else { 0nat }
    }
}

pub open spec fn count_tools(s: Seq<OperationRequest>) -> nat
    decreases s.len(),
{
    if s.len() == 0 {
        0
    } else {
        count_tools(s.drop_last()) + if s.last() is Tool { 1nat } else { 0nat }
    }
}

proof fn lemma_counts_bounded(s: Seq<OperationRequest>)
    ensures
        count_models(s) + count_tools(s) <= s.len(),
    decreases s.len(),
{
    if s.len() > 0 {
        lemma_counts_bounded(s.drop_last());
    }
}

/// The budget admits the batch: the new totals stay within every run limit.
pub open spec fn reservable(run: Run, requests: Seq<OperationRequest>) -> bool {
    let n = (requests.len() as u32) as int;
    let models = (count_models(requests) as u32) as int;
    &&& run.usage.operations + n <= u32::MAX
    &&& run.usage.model_calls + models <= u32::MAX
    &&& run.usage.operations + n <= run.limits.max_operations
    &&& run.usage.model_calls + models <= run.limits.max_model_calls
    &&& requests.len() <= run.limits.max_batch_size
}

/// The usage counters (operations, model calls, tool calls) after charging a
/// batch of requests, or the rejection of the batch.
pub fn reservation(run: &Run, requests: &[OperationRequest]) -> (r: Result<(u32, u32, u32)>)
    ensures
        r is Ok <==> reservable(*run, requests@),
        r is Err ==> r matches Err(Error::Invalid(_)),
        r matches Ok((operations, model_calls, tool_calls)) ==> {
            &&& operations == (run.usage.operations + (requests@.len() as u32)) as u32
            &&& model_calls == (run.usage.model_calls + (count_models(requests@) as u32)) as u32
            &&& tool_calls == run.usage.tool_calls.wrapping_add(count_tools(requests@) as u32)
        },
{
    let mut models: usize = 0;
    let mut tools: usize = 0;
    let mut i: usize = 0;
    while i < requests.len()
        invariant
            i <= requests@.len(),
            models == count_models(requests@.take(i as int)),
            tools == count_tools(requests@.take(i as int)),
            models + tools <= i,
        decreases requests@.len() - i,
    {
        proof {
            assert(requests@.take(i as int + 1).drop_last() =~= requests@.take(i as int));
        }
        match &requests[i] {
            OperationRequest::Model { .. } => models = models + 1,
            OperationRequest::Tool { .. } => tools = tools + 1,
            OperationRequest::Verify { .. } => {},
        }
        i = i + 1;
    }
    proof {
        assert(requests@.take(requests@.len() as int) =~= requests@);
    }
    let models = models as u32;
    let tools = tools as u32;
    let n = requests.len() as u32;
    let operations = match run.usage.operations.checked_add(n) {
        Some(v) => v,
        None => return Err(invalid("operation limit")),
    };
    let model_calls = match run.usage.model_calls.checked_add(models) {
        Some(v) => v,
        None => return Err(invalid("model call limit")),
    };
    if operations > run.limits.max_operations || model_calls > run.limits.max_model_calls
        || requests.len() > run.limits.max_batch_size {
        return Err(invalid("execution budget exhausted"));
    }
    Ok((operations, model_calls, run.usage.tool_calls.wrapping_add(tools)))
}

/// Charge a batch of requests against a run's budget, or reject it unchanged.
pub fn reserve(run: &mut Run, requests: &[OperationRequest]) -> (r: Result<()>)
    ensures
        r is Ok <==> reservable(*old(run), requests@),
        r is Err ==> *final(run) == *old(run) && r matches Err(Error::Invalid(_)),
        r is Ok ==> *final(run) == (Run {
            usage: crate::models::Usage {
                operations: (old(run).usage.operations + (requests@.len() as u32)) as u32,
                model_calls: (old(run).usage.model_calls + (count_models(requests@) as u32)) as u32,
                tool_calls: old(run).usage.tool_calls.wrapping_add(count_tools(requests@) as u32),
                ..old(run).usage
            },
            ..*old(run)
        }),
        r is Ok ==> final(run).usage.operations <= final(run).limits.max_operations
            && final(run).usage.model_calls <= final(run).limits.max_model_calls,
{
    let (operations, model_calls, tool_calls) = reservation(run, requests)?;
    run.usage.operations = operations;
    run.usage.model_calls = model_calls;
    run.usage.tool_calls = tool_calls;
    Ok(())
}

/// Workspace and group names that a shared budget can be opened with.
pub open spec fn budget_key_valid(workspace: &str, group: &str, limit: u32) -> bool {
    &&& !blank(workspace@)
    &&& !blank(group@)
    &&& group.len() <= 256
    &&& limit > 0
}

impl Data {
    pub open spec fn has_budget(&self, workspace: Seq<char>, group: Seq<char>) -> bool {
        exists|i: int| 0 <= i < self.model_budgets@.len() && self.model_budgets@[i].workspace@
            == workspace && self.model_budgets@[i].group@ == group
    }

    pub open spec fn budget_index(&self, workspace: Seq<char>, group: Seq<char>) -> int {
        choose|i: int| 0 <= i < self.model_budgets@.len() && self.model_budgets@[i].workspace@
            == workspace && self.model_budgets@[i].group@ == group
    }

    pub open spec fn budget(&self, workspace: Seq<char>, group: Seq<char>) -> Option<ModelBudget> {
        if self.has_budget(workspace, group) {
            Some(self.model_budgets@[self.budget_index(workspace, group)].budget)
        } else {
            None
        }
    }

    pub fn find_budget(&self, workspace: &str, group: &str) -> (r: Option<usize>)
        requires
            self.wf(),
        ensures
            r is Some <==> self.has_budget(workspace@, group@),
            r matches Some(i) ==> i == self.budget_index(workspace@, group@) && i
                < self.model_budgets@.len(),
    {
        let mut i: usize = 0;
        while i < self.model_budgets.len()
            invariant
                self.wf(),
                i <= self.model_budgets@.len(),
                forall|k: int| 0 <= k < i ==> !(self.model_budgets@[k].workspace@ == workspace@
                    && self.model_budgets@[k].group@ == group@),
            decreases self.model_budgets@.len() - i,
        {
            if str_equal(self.model_budgets[i].workspace.as_str(), workspace)
                && str_equal(self.model_budgets[i].group.as_str(), group) {
                assert(self.has_budget(workspace@, group@));
                let ghost j = self.budget_index(workspace@, group@);
                assert(self.model_budgets@[i as int].group@ == group@);
                assert(j == i);
                return Some(i);
            }
            i = i + 1;
        }
        None
    }

    /// Open a shared model budget, or reopen an existing one with the same
    /// limit, preserving its usage.
    pub fn open_model_budget(&mut self, workspace: &str, group: &str, limit: u32) -> (r: Result<()>)
        requires
            old(self).wf(),
        ensures
            final(self).wf(),
            !budget_key_valid(workspace, group, limit) ==> r matches Err(Error::Invalid(_)),
            budget_key_valid(workspace, group, limit) ==> match old(self).budget(workspace@, group@) {
                Some(b) => (r is Ok <==> b.limit == limit) && (r is Err ==> r matches Err(Error::Conflict(_))),
                None => r is Ok,
            },
            r is Ok ==> final(self).budget(workspace@, group@) == Some(
                match old(self).budget(workspace@, group@) {
                    Some(b) => b,
                    None => ModelBudget { limit, admitted: 0 },
                }),
            r is Err ==> *final(self) == *old(self),
            old(self).has_budget(workspace@, group@) ==> *final(self) == *old(self),
            *final(self) == (Data { model_budgets: final(self).model_budgets, ..*old(self) }),
            forall|w: Seq<char>, g: Seq<char>| !(w == workspace@ && g == group@)
                ==> #[trigger] final(self).budget(w, g) == old(self).budget(w, g),
            final(self).runs == old(self).runs,
            final(self).operations == old(self).operations,
            final(self).logs == old(self).logs,
            final(self).policies == old(self).policies,
    {
        if is_blank(workspace) || is_blank(group) || group.len() > 256 || limit == 0 {
            return Err(invalid("budget requires a workspace, group, and positive limit"));
        }
        match self.find_budget(workspace, group) {
            Some(i) => {
                if self.model_budgets[i].budget.limit != limit {
                    Err(conflict("shared model budget limit changed"))
                } else {
                    Ok(())
                }
            },
            None => {
                let ghost before = self.model_budgets@;
                self.model_budgets.push(BudgetEntry {
                    workspace: workspace.to_owned(),
                    group: group.to_owned(),
                    budget: ModelBudget { limit, admitted: 0 },
                });
                let ghost last = before.len() as int;
                assert(self.model_budgets@[last].workspace@ == workspace@);
                assert(self.model_budgets@[last].group@ == group@);
                assert(self.has_budget(workspace@, group@));
                assert(self.budget_index(workspace@, group@) == last);
                assert forall|w: Seq<char>, g: Seq<char>| !(w == workspace@ && g == group@)
                    implies #[trigger] self.budget(w, g) == old(self).budget(w, g) by {
                    if old(self).has_budget(w, g) {
                        let j = old(self).budget_index(w, g);
                        assert(self.model_budgets@[j] == before[j]);
                        assert(self.has_budget(w, g));
                        assert(self.budget_index(w, g) == j);
                    } else if self.has_budget(w, g) {
                        let j = self.budget_index(w, g);
                        assert(j != last);
                        assert(before[j] == self.model_budgets@[j]);
                    }
                }
                Ok(())
            },
        }
    }

    /// The current counter of a shared budget.
    pub fn model_budget_usage(&self, workspace: &str, group: &str) -> (r: Result<ModelBudget>)
        requires
            self.wf(),
        ensures
            match self.budget(workspace@, group@) {
                Some(b) => r == Ok::<ModelBudget, Error>(b),
                None => r == Err::<ModelBudget, Error>(Error::NotFound),
            },
    {
        match self.find_budget(workspace, group) {
            Some(i) => Ok(self.model_budgets[i].budget),
            None => Err(Error::NotFound),
        }
    }

    /// Charge one model call against a shared budget before the call is made.
    /// A charge is never refunded, even when the provider then fails.
    pub fn admit_model_call(&mut self, workspace: &str, group: &str) -> (r: Result<()>)
        requires
            old(self).wf(),
        ensures
            final(self).wf(),
            match old(self).budget(workspace@, group@) {
                None => r == Err::<(), Error>(Error::NotFound),
                Some(b) => {
                    &&& (r is Ok <==> b.admitted < b.limit)
                    &&& (r is Err ==> r matches Err(Error::Invalid(_)))
                    &&& r is Ok ==> final(self).budget(workspace@, group@) == Some(
                        ModelBudget { limit: b.limit, admitted: (b.admitted + 1) as u32 })
                },
            },
            r is Err ==> final(self).model_budgets == old(self).model_budgets,
            forall|w: Seq<char>, g: Seq<char>| !(w == workspace@ && g == group@)
                ==> #[trigger] final(self).budget(w, g) == old(self).budget(w, g),
            final(self).runs == old(self).runs,
            final(self).operations == old(self).operations,
            final(self).logs == old(self).logs,
            final(self).policies == old(self).policies,
    {
        match self.find_budget(workspace, group) {
            None => Err(Error::NotFound),
            Some(i) => {
                if self.model_budgets[i].budget.admitted >= self.model_budgets[i].budget.limit {
                    return Err(invalid("shared model call budget exhausted"));
                }
                let ghost before = self.model_budgets@;
                self.model_budgets[i].budget.admitted = self.model_budgets[i].budget.admitted + 1;
                assert(self.model_budgets@[i as int].workspace@ == workspace@);
                assert(self.model_budgets@[i as int].group@ == group@);
                assert(self.has_budget(workspace@, group@));
                assert(self.budget_index(workspace@, group@) == i);
                assert forall|w: Seq<char>, g: Seq<char>| !(w == workspace@ && g == group@)
                    implies #[trigger] self.budget(w, g) == old(self).budget(w, g) by {
                    if old(self).has_budget(w, g) {
                        let j = old(self).budget_index(w, g);
                        assert(j != i);
                        assert(self.model_budgets@[j] == before[j]);
                        assert(self.has_budget(w, g));
                        assert(self.budget_index(w, g) == j);
                    } else if self.has_budget(w, g) {
                        let j = self.budget_index(w, g);
                        assert(before[j].workspace@ == self.model_budgets@[j].workspace@);
                        assert(before[j].group@ == self.model_budgets@[j].group@);
                    }
                }
                Ok(())
            },
        }
    }
}

/// A model executor charged against a shared budget group. The host performs
/// `Data::admit_model_call` for `budget_binding()` before each inner call.
pub struct BudgetedModel<M> {
    pub inner: M,
    pub workspace: String,
    pub group: String,
}

impl<M> BudgetedModel<M> {
    /// Opening an existing group preserves usage and requires the same limit.
    pub fn new(inner: M, store: &mut Data, workspace: &str, group: &str, limit: u32) -> (r: Result<Self>)
        requires
            old(store).wf(),
        ensures
            final(store).wf(),
            !budget_key_valid(workspace, group, limit) ==> r matches Err(Error::Invalid(_)),
            budget_key_valid(workspace, group, limit) ==> match old(store).budget(workspace@, group@) {
                Some(b) => (r is Ok <==> b.limit == limit) && (r is Err ==> r matches Err(Error::Conflict(_))),
                None => r is Ok,
            },
            r matches Ok(m) ==> m.workspace@ == workspace@ && m.group@ == group@
                && final(store).budget(workspace@, group@) == Some(
                    match old(store).budget(workspace@, group@) {
                        Some(b) => b,
                        None => ModelBudget { limit, admitted: 0 },
                    }),
            r is Err ==> *final(store) == *old(store),
            old(store).has_budget(workspace@, group@) ==> *final(store) == *old(store),
            *final(store) == (Data { model_budgets: final(store).model_budgets, ..*old(store) }),
            forall|w: Seq<char>, g: Seq<char>| !(w == workspace@ && g == group@)
                ==> #[trigger] final(store).budget(w, g) == old(store).budget(w, g),
            final(store).runs == old(store).runs,
            final(store).operations == old(store).operations,
            final(store).logs == old(store).logs,
            final(store).policies == old(store).policies,
    {
        store.open_model_budget(workspace, group, limit)?;
        Ok(BudgetedModel { inner, workspace: workspace.to_owned(), group: group.to_owned() })
    }

    pub fn usage(&self, store: &Data) -> (r: Result<ModelBudget>)
        requires
            store.wf(),
        ensures
            match store.budget(self.workspace@, self.group@) {
                Some(b) => r == Ok::<ModelBudget, Error>(b),
                None => r == Err::<ModelBudget, Error>(Error::NotFound),
            },
    {
        store.model_budget_usage(self.workspace.as_str(), self.group.as_str())
    }

    pub fn budget_binding(&self) -> (r: Option<ModelBudgetBinding>)
        ensures
            r matches Some(b) && b.workspace@ == self.workspace@ && b.group@ == self.group@,
    {
        Some(ModelBudgetBinding { workspace: self.workspace.clone(), group: self.group.clone() })
    }
}

} // verus!
