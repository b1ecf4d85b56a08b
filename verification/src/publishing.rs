//! Publishing a configured agent: the policies of its capabilities, the tools
//! it is given, its record, and the behaviour pinned to its version.
use vstd::prelude::*;
use crate::configured::{capability_policy_list, policy_shape, agent_record, capability_policies, http_tool_record, model_transport_fingerprint, selected_model, Definition};
use crate::context::{bind_context_policy, context_reader_tool};
use crate::coordination::bind_coordination_policy;
use crate::definitions::{bind_model_transport, store_agent, store_tool};
use crate::error::{text, Error, Result};
use crate::json::put;
use crate::memory::{bind_memory, memory_tools};
use crate::models::{Actor, AgentTool, Tool, VersionRef};
use crate::primitives::decimal_text;
use crate::security::same_policy;
use crate::skills::{Skill, SkillCatalog, SkillPackage, SkillResource};
use crate::store::{definitions_extended, Data, Policy};
use crate::delegation::delegation_tools;
use crate::publication::{begin_publication, finish_publication, only_publications_changed, publication_request_valid, PublicationReceipt};
use crate::json::{digest_text, text_digest};
use crate::primitives::now;
use crate::text::blank;

verus! {

/// A policy equal to `p` is stored under `id` in the workspace.
pub open spec fn policy_stored(d: Data, workspace: Seq<char>, id: Seq<char>, p: Policy) -> bool {
    d.policy(workspace, id) matches Some(q) && same_policy(q, p)
}

/// A policy of the capability's shape, for `actor_id`, is stored under its id.
pub open spec fn capability_stored(d: Data, workspace: Seq<char>, actor_id: Seq<char>, c: (Seq<char>, bool, bool)) -> bool {
    d.policy(workspace, c.0) matches Some(q) && policy_shape(q, actor_id, c.1, c.2)
}

proof fn lemma_policy_kept(a: Data, b: Data, workspace: Seq<char>, id: Seq<char>, p: Policy)
    requires
        a.wf(),
        b.wf(),
        policy_stored(a, workspace, id, p),
        b.policies@.len() >= a.policies@.len(),
        b.policies@.subrange(0, a.policies@.len() as int) == a.policies@,
    ensures
        policy_stored(b, workspace, id, p),
{
    let i = a.policy_index(workspace, id);
    assert(b.policies@[i] == a.policies@[i]);
    assert(b.has_policy(workspace, id));
    let j = b.policy_index(workspace, id);
    assert(i == j) by {
        assert(b.policies@[j].workspace@ == workspace && b.policies@[j].id@ == id);
    }
}

fn copy_policy(p: &Policy) -> (c: Policy)
    ensures
        same_policy(c, *p),
{
    let mut actors: Vec<String> = Vec::new();
    let mut k: usize = 0;
    while k < p.actors.len()
        invariant
            k <= p.actors@.len(),
            actors@.len() == k,
            forall|i: int| 0 <= i < k ==> (#[trigger] actors@[i])@ == p.actors@[i]@,
        decreases p.actors@.len() - k,
    {
        actors.push(p.actors[k].clone());
        k = k + 1;
    }
    let mut approvers: Vec<String> = Vec::new();
    let mut k: usize = 0;
    while k < p.approvers.len()
        invariant
            k <= p.approvers@.len(),
            approvers@.len() == k,
            forall|i: int| 0 <= i < k ==> (#[trigger] approvers@[i])@ == p.approvers@[i]@,
        decreases p.approvers@.len() - k,
    {
        approvers.push(p.approvers[k].clone());
        k = k + 1;
    }
    Policy { actors, approvers, require_approval: p.require_approval }
}

fn copy_skills(v: &Vec<Skill>) -> (r: Vec<Skill>)
    ensures
        r@ == v@,
{
    let mut r: Vec<Skill> = Vec::new();
    let mut k: usize = 0;
    while k < v.len()
        invariant
            k <= v@.len(),
            r@ == v@.subrange(0, k as int),
        decreases v@.len() - k,
    {
        let s = &v[k];
        r.push(Skill { name: s.name.clone(), description: s.description.clone(), instructions: s.instructions.clone() });
        proof {
            assert(r@ =~= v@.subrange(0, k as int + 1));
        }
        k = k + 1;
    }
    r
}

fn copy_packages(v: &Vec<SkillPackage>) -> (r: Vec<SkillPackage>)
    ensures
        r@.len() == v@.len(),
        forall|k: int| 0 <= k < v@.len() ==> (#[trigger] r@[k]).skill == v@[k].skill && r@[k].resources@ == v@[k].resources@,
{
    let mut r: Vec<SkillPackage> = Vec::new();
    let mut k: usize = 0;
    while k < v.len()
        invariant
            k <= v@.len(),
            r@.len() == k,
            forall|q: int| 0 <= q < k ==> (#[trigger] r@[q]).skill == v@[q].skill && r@[q].resources@ == v@[q].resources@,
        decreases v@.len() - k,
    {
        let p = &v[k];
        let mut resources: Vec<SkillResource> = Vec::new();
        let mut j: usize = 0;
        while j < p.resources.len()
            invariant
                j <= p.resources@.len(),
                resources@ == p.resources@.subrange(0, j as int),
            decreases p.resources@.len() - j,
        {
            resources.push(SkillResource { path: p.resources[j].path.clone(), contents: p.resources[j].contents.clone() });
            proof {
                assert(resources@ =~= p.resources@.subrange(0, j as int + 1));
            }
            j = j + 1;
        }
        proof {
            assert(resources@ =~= p.resources@);
        }
        let skill = Skill { name: p.skill.name.clone(), description: p.skill.description.clone(), instructions: p.skill.instructions.clone() };
        r.push(SkillPackage { skill, resources });
        k = k + 1;
    }
    r
}

fn binding_of(t: &Tool) -> (b: AgentTool)
    ensures
        b.tool_ref.id@ == t.id@ && b.tool_ref.version == t.version && b.alias@ == t.name@,
{
    AgentTool { tool_ref: VersionRef { id: t.id.clone(), version: t.version }, alias: t.name.clone() }
}

/// `prefix:name:version`.
fn policy_name(prefix: &str, name: &String, version: u32) -> (r: String) {
    let mut r = text(prefix);
    put(&mut r, name.as_str());
    put(&mut r, ":");
    let v = decimal_text(version as u64);
    put(&mut r, v.as_str());
    r
}

/// Publish a configured agent: ensure the policies of its capabilities, then
/// store the tools it is given (memory, context reader, skill loader, HTTP
/// tools), each bound to it, after the `bindings` that other adapters
/// registered first; then its record, then pin its coordination (for a team),
/// memory, context policy and model transport to its version. Returns the
/// agent's reference. A step that fails stops the publication with its error.
#[verifier::rlimit(60)]
pub fn publish_agent(d: &mut Data, actor: &Actor, definition: &Definition, bindings: Vec<AgentTool>, deferred: bool)
    -> (r: Result<VersionRef>)
    requires
        old(d).wf(),
    ensures
        final(d).wf(),
        definitions_extended(*old(d), *final(d)),
        r matches Ok(v) ==> {
            &&& v.id@ == definition.name@ && v.version == definition.version
            &&& final(d).has_agent(actor.workspace_id@, v)
            &&& forall|k: int| 0 <= k < capability_policy_list(*definition).len() ==>
                capability_stored(*final(d), actor.workspace_id@, actor.id@, #[trigger] capability_policy_list(*definition)[k])
        },
{
    broadcast use crate::store::lemma_definitions_extended_trans;
    let model = selected_model(definition)?;
    let mut policies = capability_policies(definition, actor);
    let ghost all = policies@;
    let n = policies.len();
    let mut i: usize = 0;
    while i < n
        invariant
            d.wf(),
            n == all.len(),
            i <= n,
            policies@ == all.subrange(i as int, n as int),
            definitions_extended(*old(d), *d),
            forall|j: int| 0 <= j < i ==> policy_stored(*d, actor.workspace_id@, (#[trigger] all[j]).0@, all[j].1),
        decreases n - i,
    {
        let entry = policies.remove(0);
        let policy = copy_policy(&entry.1);
        let ghost before = *d;
        d.ensure_policy(&actor.workspace_id, &entry.0, policy)?;
        proof {
            assert(entry == all[i as int]);
            assert forall|j: int| 0 <= j < i + 1 implies policy_stored(*d, actor.workspace_id@, (#[trigger] all[j]).0@, all[j].1) by {
                if j < i {
                    if before.has_policy(actor.workspace_id@, entry.0@) {
                        assert(d.policies == before.policies);
                    } else {
                        assert(d.policies@.subrange(0, before.policies@.len() as int) =~= before.policies@);
                        lemma_policy_kept(before, *d, actor.workspace_id@, all[j].0@, all[j].1);
                    }
                } else {
                    if !before.has_policy(actor.workspace_id@, entry.0@) {
                        let last = (d.policies@.len() - 1) as int;
                        assert(d.has_policy(actor.workspace_id@, entry.0@)) by {
                            assert(d.policies@[last].workspace@ == actor.workspace_id@);
                        }
                        let q = d.policy_index(actor.workspace_id@, entry.0@);
                        assert(q == last) by {
                            if q != last {
                                assert(d.policies@[q] == before.policies@[q]);
                            }
                        }
                    }
                }
            }
            assert(policies@ =~= all.subrange(i as int + 1, n as int));
        }
        i = i + 1;
    }
    let ghost stored = *d;
    let mut bindings = bindings;
    if let Some(memory) = &definition.memory {
        let read = policy_name("memory-read:", &definition.name, definition.version);
        let write = policy_name("memory-write:", &definition.name, definition.version);
        let mut tools = memory_tools(&definition.name, definition.version, actor, &memory.scope, read.as_str(), write.as_str())?;
        while tools.len() > 0
            invariant
                d.wf(),
                d.policies == stored.policies,
                definitions_extended(*old(d), *d),
            decreases tools@.len(),
        {
            let tool = tools.remove(0);
            bindings.push(binding_of(&tool));
            store_tool(d, tool, true)?;
        }
    }
    if let Some(context) = &definition.context {
        let policy = policy_name("context:", &definition.name, definition.version);
        let tool = context_reader_tool(&definition.name, definition.version, &actor.workspace_id, policy.as_str(), context)?;
        bindings.push(binding_of(&tool));
        store_tool(d, tool, true)?;
    }
    if definition.skills.len() > 0 || definition.loaded_packages.len() > 0 {
        let skills = copy_skills(&definition.skills);
        let packages = copy_packages(&definition.loaded_packages);
        let catalog = SkillCatalog::with_packages(skills, packages)?;
        let tool = catalog.loader_tool(actor.workspace_id.as_str(), "skills");
        bindings.push(binding_of(&tool));
        store_tool(d, tool, true)?;
    }
    let mut k: usize = 0;
    while k < definition.http_tools.len()
        invariant
            d.wf(),
            d.policies == stored.policies,
            definitions_extended(*old(d), *d),
        decreases definition.http_tools@.len() - k,
    {
        let (tool, _) = http_tool_record(&definition.name, definition.version, actor, &definition.http_tools[k]);
        bindings.push(binding_of(&tool));
        store_tool(d, tool, true)?;
        k = k + 1;
    }
    let agent = agent_record(definition, actor, model, bindings, deferred);
    let reference = VersionRef { id: agent.id.clone(), version: agent.version };
    let ghost a = agent;
    let ghost before_agent = *d;
    store_agent(d, agent, true)?;
    proof {
        assert(a.workspace_id@ == actor.workspace_id@);
        assert(reference.id@ == a.id@);
        if !before_agent.has_agent(a.workspace_id@, VersionRef { id: a.id, version: a.version }) {
            assert(d.agents@[d.agents@.len() - 1] == a);
        }
    }
    let ghost with_agent = *d;
    proof {
        assert(d.has_agent(actor.workspace_id@, reference));
    }
    let workspace = actor.workspace_id.as_str();
    if definition.subagents.len() > 0 {
        bind_coordination_policy(d, workspace, &reference, &definition.coordination)?;
    }
    bind_memory(d, workspace, &reference, definition.memory.clone())?;
    bind_context_policy(d, workspace, &reference, definition.context)?;
    let fingerprint = model_transport_fingerprint(definition);
    bind_model_transport(d, workspace, &reference, fingerprint.as_str())?;
    proof {
        assert(d.agents == with_agent.agents);
        assert(d.has_agent(actor.workspace_id@, reference));
        assert(d.policies == stored.policies);
        assert forall|k: int| 0 <= k < capability_policy_list(*definition).len() implies
            capability_stored(*d, actor.workspace_id@, actor.id@, #[trigger] capability_policy_list(*definition)[k]) by {
            assert(all[k].0@ == capability_policy_list(*definition)[k].0);
            assert(policy_stored(stored, actor.workspace_id@, all[k].0@, all[k].1));
        }
    }
    Ok(reference)
}

/// `delegate_<name>`.
fn delegate_alias(name: &String) -> (r: String)
    ensures
        r@ == "delegate_"@ + name@,
{
    let mut r = text("delegate_");
    put(&mut r, name.as_str());
    r
}

fn delegate_description(name: &String) -> (r: String) {
    let mut r = text("Delegate a task to specialist ");
    put(&mut r, name.as_str());
    put(&mut r, ". Inspect its returned status before claiming completion.");
    r
}

/// Publish a configured agent tree: each subagent first (depth first, in
/// order), bound to its parent through a delegation tool and a join tool under
/// the `configured-subagents` policy, then the agent itself.
#[verifier::rlimit(40)]
pub fn publish_tree(d: &mut Data, actor: &Actor, definition: &Definition, deferred: bool) -> (r: Result<VersionRef>)
    requires
        old(d).wf(),
    ensures
        final(d).wf(),
        definitions_extended(*old(d), *final(d)),
        r matches Ok(v) ==> v.id@ == definition.name@ && v.version == definition.version
            && final(d).has_agent(actor.workspace_id@, v),
    decreases definition,
{
    broadcast use crate::store::lemma_definitions_extended_trans;
    let mut bindings: Vec<AgentTool> = Vec::new();
    let mut k: usize = 0;
    while k < definition.subagents.len()
        invariant
            d.wf(),
            definitions_extended(*old(d), *d),
        decreases definition.subagents@.len() - k,
    {
        let child = &definition.subagents[k];
        proof {
            assert(decreases_to!(definition => definition.subagents));
            assert(decreases_to!(definition.subagents => definition.subagents@));
            assert(decreases_to!(definition.subagents@ => definition.subagents@[k as int]));
        }
        let child_ref = publish_tree(d, actor, child, deferred)?;
        let alias = delegate_alias(&child.name);
        let description = delegate_description(&child.name);
        let (delegate, join) = delegation_tools(d, actor, &child_ref, alias.as_str(), description.as_str(), "configured-subagents", deferred)?;
        bindings.push(binding_of(&delegate));
        store_tool(d, delegate, true)?;
        bindings.push(binding_of(&join));
        store_tool(d, join, true)?;
        k = k + 1;
    }
    publish_agent(d, actor, definition, bindings, deferred)
}

/// What a failed publication leaves: the definition tables hold what they held
/// before, and nothing else changed.
pub open spec fn definitions_restored(old: Data, new: Data) -> bool {
    &&& new.agents@ == old.agents@ && new.tools@ == old.tools@ && new.policies@ == old.policies@
    &&& new.model_budgets@ == old.model_budgets@ && new.model_bindings@ == old.model_bindings@
    &&& new.memory_bindings@ == old.memory_bindings@ && new.context_policies@ == old.context_policies@
    &&& new.coordination_policies@ == old.coordination_policies@
    &&& new == (Data { agents: new.agents, tools: new.tools, policies: new.policies, model_budgets: new.model_budgets,
        model_bindings: new.model_bindings, memory_bindings: new.memory_bindings, context_policies: new.context_policies,
        coordination_policies: new.coordination_policies, ..old })
}

/// The lengths of the definition tables.
struct DefinitionCounts {
    agents: usize,
    tools: usize,
    policies: usize,
    model_budgets: usize,
    model_bindings: usize,
    memory_bindings: usize,
    context_policies: usize,
    coordination_policies: usize,
}

fn definition_counts(d: &Data) -> (c: DefinitionCounts)
    ensures
        counts_of(c, *d),
{
    DefinitionCounts {
        agents: d.agents.len(),
        tools: d.tools.len(),
        policies: d.policies.len(),
        model_budgets: d.model_budgets.len(),
        model_bindings: d.model_bindings.len(),
        memory_bindings: d.memory_bindings.len(),
        context_policies: d.context_policies.len(),
        coordination_policies: d.coordination_policies.len(),
    }
}

spec fn counts_of(c: DefinitionCounts, d: Data) -> bool {
    &&& c.agents == d.agents@.len() && c.tools == d.tools@.len() && c.policies == d.policies@.len()
    &&& c.model_budgets == d.model_budgets@.len() && c.model_bindings == d.model_bindings@.len()
    &&& c.memory_bindings == d.memory_bindings@.len() && c.context_policies == d.context_policies@.len()
    &&& c.coordination_policies == d.coordination_policies@.len()
}

/// Undo appended definitions: cut every definition table back to its saved length.
fn restore_definitions(d: &mut Data, c: &DefinitionCounts, Ghost(saved): Ghost<Data>)
    requires
        counts_of(*c, saved),
        definitions_extended(saved, *old(d)),
    ensures
        definitions_restored(saved, *final(d)),
{
    d.agents.truncate(c.agents);
    d.tools.truncate(c.tools);
    d.policies.truncate(c.policies);
    d.model_budgets.truncate(c.model_budgets);
    d.model_bindings.truncate(c.model_bindings);
    d.memory_bindings.truncate(c.memory_bindings);
    d.context_policies.truncate(c.context_policies);
    d.coordination_policies.truncate(c.coordination_policies);
    proof {
        assert(d.agents@ =~= saved.agents@);
        assert(d.tools@ =~= saved.tools@);
        assert(d.policies@ =~= saved.policies@);
        assert(d.model_budgets@ =~= saved.model_budgets@);
        assert(d.model_bindings@ =~= saved.model_bindings@);
        assert(d.memory_bindings@ =~= saved.memory_bindings@);
        assert(d.context_policies@ =~= saved.context_policies@);
        assert(d.coordination_policies@ =~= saved.coordination_policies@);
    }
}

/// Publish a validated configuration tree under `request_key`, atomically.
/// `frozen` is the configuration's frozen JSON text, whose digest the receipt
/// records. A retried key or an identical existing revision returns its
/// receipt (see `begin_publication`); otherwise the tree is published and the
/// publication recorded. No definition change survives a failed publication.
#[verifier::rlimit(40)]
pub fn publish_configuration(d: &mut Data, actor: &Actor, definition: &Definition, frozen: String, request_key: &str)
    -> (r: Result<PublicationReceipt>)
    requires
        old(d).wf(),
    ensures
        r is Err ==> definitions_restored(*old(d), *final(d)),
        (blank(actor.id@) || blank(actor.workspace_id@)) ==> r == Err::<PublicationReceipt, Error>(Error::Denied),
        !blank(actor.id@) && !blank(actor.workspace_id@) && !publication_request_valid(*actor, request_key@)
            ==> (r matches Err(Error::Invalid(_))),
        publication_request_valid(*actor, request_key@) && old(d).has_publication_key(actor.workspace_id@, actor.id@, request_key@)
            ==> {
            let k = old(d).keyed_receipt(actor.workspace_id@, actor.id@, request_key@);
            &&& k.digest@ == text_digest(frozen@) ==> r == Ok::<PublicationReceipt, Error>(k) && *final(d) == *old(d)
            &&& k.digest@ != text_digest(frozen@) ==> (r matches Err(Error::Conflict(_)))
        },
        r matches Ok(rc) ==> {
            &&& rc.digest@ == text_digest(frozen@)
            &&& final(d).has_publication_key(actor.workspace_id@, actor.id@, request_key@)
            &&& final(d).keyed_receipt(actor.workspace_id@, actor.id@, request_key@) == rc
            &&& !old(d).has_publication_key(actor.workspace_id@, actor.id@, request_key@) ==> {
                &&& rc.agent_ref.id@ == definition.name@ && rc.agent_ref.version == definition.version
                &&& final(d).has_publication(actor.workspace_id@, rc.agent_ref)
                &&& final(d).publication(actor.workspace_id@, rc.agent_ref).receipt == rc
                &&& final(d).publication(actor.workspace_id@, rc.agent_ref).actor_id@ == actor.id@
                &&& !old(d).has_publication(actor.workspace_id@, rc.agent_ref)
                    ==> final(d).publication(actor.workspace_id@, rc.agent_ref).frozen@ == frozen@
            }
        },
{
    broadcast use crate::store::lemma_definitions_extended_trans;
    let expected = digest_text(&frozen);
    let reference = VersionRef { id: definition.name.clone(), version: definition.version };
    match begin_publication(d, actor, request_key, &reference, &expected) {
        Err(e) => {
            proof { assert(definitions_restored(*old(d), *d)); }
            return Err(e);
        },
        Ok(Some(receipt)) => {
            proof {
                if !old(d).has_publication_key(actor.workspace_id@, actor.id@, request_key@) {
                    let i = old(d).publication_index(actor.workspace_id@, reference);
                    assert(d.publications@[i] == old(d).publications@[i]);
                    assert(d.has_publication(actor.workspace_id@, receipt.agent_ref));
                    assert(d.publication_index(actor.workspace_id@, receipt.agent_ref) == i);
                }
            }
            return Ok(receipt);
        },
        Ok(None) => {},
    }
    let ghost saved = *d;
    let counts = definition_counts(d);
    let published = publish_tree(d, actor, definition, true);
    match published {
        Err(e) => {
            restore_definitions(d, &counts, Ghost(saved));
            return Err(e);
        },
        Ok(v) => {},
    }
    match finish_publication(d, actor, request_key, reference, expected, frozen, now()) {
        Err(e) => {
            restore_definitions(d, &counts, Ghost(saved));
            Err(e)
        },
        Ok(rc) => Ok(rc),
    }
}

} // verus!
