//! Immutable agent and tool definitions and their JSON Schema contracts.
use vstd::prelude::*;
use crate::error::{conflict, invalid, text, Error, Result};
use crate::json::{parse, parse_json, put, put_quoted, Json};
use crate::models::{Agent, AgentTool, Execution, Tool, VersionRef, SCHEMA_VERSION};
use crate::store::Data;
use crate::text::{blank, is_blank};

verus! {

/// A `$ref` or `$dynamicRef` member whose value is a string must point inside
/// the document (start with `#`).
pub open spec fn member_allowed(key: Seq<char>, value: Json) -> bool {
    (key == "$ref"@ || key == "$dynamicRef"@) ==> match value {
        Json::Str(s) => s@.len() > 0 && s@[0] == '#',
        _ => true,
    }
}

/// No external schema reference anywhere in the document.
pub open spec fn schema_allowed(j: Json) -> bool
    decreases j,
{
    match j {
        Json::Object(fields) => forall|i: int| 0 <= i < fields@.len() ==> {
            &&& member_allowed((#[trigger] fields@[i]).0@, fields@[i].1)
            &&& schema_allowed(fields@[i].1)
        },
        Json::Array(items) => forall|i: int| 0 <= i < items@.len() ==> schema_allowed(#[trigger] items@[i]),
        _ => true,
    }
}

fn is_reference_key(key: &String) -> (r: bool)
    ensures
        r == (key@ == "$ref"@ || key@ == "$dynamicRef"@),
{
    let a = crate::error::text("$ref");
    let b = crate::error::text("$dynamicRef");
    *key == a || *key == b
}

fn starts_with_hash(s: &String) -> (r: bool)
    ensures
        r == (s@.len() > 0 && s@[0] == '#'),
{
    let t = s.as_str();
    if t.unicode_len() == 0 {
        false
    } else {
        t.get_char(0) == '#'
    }
}

pub fn check_schema_allowed(j: &Json) -> (r: bool)
    ensures
        r == schema_allowed(*j),
    decreases j,
{
    match j {
        Json::Object(fields) => {
            let mut i: usize = 0;
            while i < fields.len()
                invariant
                    *j == Json::Object(*fields),
                    i <= fields@.len(),
                    forall|k: int| 0 <= k < i ==> {
                        &&& member_allowed((#[trigger] fields@[k]).0@, fields@[k].1)
                        &&& schema_allowed(fields@[k].1)
                    },
                decreases fields@.len() - i,
            {
                let (key, value) = &fields[i];
                proof {
                    assert(decreases_to!(*j => j->Object_0));
                    assert(j->Object_0 == *fields);
                    assert(decreases_to!(fields@ => fields@[i as int]));
                    assert(decreases_to!(fields@[i as int] => fields@[i as int].1));
                }
                if is_reference_key(key) {
                    if let Json::Str(s) = value {
                        if !starts_with_hash(s) {
                            assert(!member_allowed(fields@[i as int].0@, fields@[i as int].1));
                            assert(*j == Json::Object(*fields));
                            assert(!schema_allowed(*j)) by {
                                reveal_with_fuel(schema_allowed, 2);
                            }
                            return false;
                        }
                    }
                }
                if !check_schema_allowed(value) {
                    assert(!schema_allowed(fields@[i as int].1));
                    return false;
                }
                i = i + 1;
            }
            true
        },
        Json::Array(items) => {
            let mut i: usize = 0;
            while i < items.len()
                invariant
                    *j == Json::Array(*items),
                    i <= items@.len(),
                    forall|k: int| 0 <= k < i ==> schema_allowed(#[trigger] items@[k]),
                decreases items@.len() - i,
            {
                proof {
                    assert(decreases_to!(*j => j->Array_0));
                    assert(j->Array_0 == *items);
                    assert(decreases_to!(items@ => items@[i as int]));
                }
                if !check_schema_allowed(&items[i]) {
                    assert(!schema_allowed(items@[i as int]));
                    assert(*j == Json::Array(*items));
                    assert(!schema_allowed(*j)) by {
                        reveal_with_fuel(schema_allowed, 2);
                    }
                    return false;
                }
                i = i + 1;
            }
            true
        },
        _ => true,
    }
}

/// The JSON Schema compiles under the default draft.
pub uninterp spec fn json_schema_compiles(schema: Seq<char>) -> bool;

/// The instance satisfies the JSON Schema.
pub uninterp spec fn json_schema_accepts(schema: Seq<char>, instance: Seq<char>) -> bool;

/// `jsonschema::validator_for` on the parsed schema succeeds.
#[verifier::external_body]
fn schema_compiles(schema: &str) -> (r: bool)
    ensures
        r == json_schema_compiles(schema@),
{
    match serde_json::from_str::<serde_json::Value>(schema) {
        Ok(v) => jsonschema::validator_for(&v).is_ok(),
        Err(_) => false,
    }
}

/// `jsonschema::Validator::is_valid` of the parsed instance against the compiled schema.
#[verifier::external_body]
fn schema_accepts(schema: &str, instance: &str) -> (r: bool)
    requires
        json_schema_compiles(schema@),
    ensures
        r == json_schema_accepts(schema@, instance@),
{
    match (serde_json::from_str::<serde_json::Value>(schema), serde_json::from_str::<serde_json::Value>(instance)) {
        (Ok(s), Ok(i)) => match jsonschema::validator_for(&s) {
            Ok(validator) => validator.is_valid(&i),
            Err(_) => false,
        },
        _ => false,
    }
}

/// A usable schema: JSON, without external references, that compiles.
pub open spec fn schema_valid(schema: Seq<char>) -> bool {
    &&& parse_json(schema) is Some
    &&& schema_allowed(parse_json(schema)->0)
    &&& json_schema_compiles(schema)
}

pub fn validate_schema(schema: &str) -> (r: Result<()>)
    ensures
        r is Ok <==> schema_valid(schema@),
        r is Err ==> r matches Err(Error::Invalid(_)),
{
    match parse(schema) {
        None => return Err(invalid("invalid JSON Schema")),
        Some(j) => {
            if !check_schema_allowed(&j) {
                return Err(invalid("external schema references are disabled"));
            }
        },
    }
    if !schema_compiles(schema) {
        return Err(invalid("invalid JSON Schema"));
    }
    Ok(())
}

/// Validate an instance (JSON text) against a schema (JSON text).
pub fn validate(schema: &str, value: &str) -> (r: Result<()>)
    ensures
        r is Ok <==> schema_valid(schema@) && json_schema_accepts(schema@, value@),
        r is Err ==> r matches Err(Error::Invalid(_)),
{
    validate_schema(schema)?;
    if !schema_accepts(schema, value) {
        return Err(invalid("schema validation failed"));
    }
    Ok(())
}

pub open spec fn opt_same(a: Option<String>, b: Option<String>) -> bool {
    match (a, b) {
        (None, None) => true,
        (Some(x), Some(y)) => x@ == y@,
        _ => false,
    }
}

fn opt_equal(a: &Option<String>, b: &Option<String>) -> (r: bool)
    ensures
        r == opt_same(*a, *b),
{
    match (a, b) {
        (None, None) => true,
        (Some(x), Some(y)) => *x == *y,
        _ => false,
    }
}

pub open spec fn execution_same(a: Execution, b: Execution) -> bool {
    match (a, b) {
        (Execution::Registered { key: x }, Execution::Registered { key: y }) => x@ == y@,
        (Execution::Http { endpoint: x }, Execution::Http { endpoint: y }) => x@ == y@,
        (Execution::Sandbox { package: x }, Execution::Sandbox { package: y }) => x@ == y@,
        _ => false,
    }
}

/// Same content, field by field.
pub open spec fn tool_same(a: Tool, b: Tool) -> bool {
    &&& a.id@ == b.id@ && a.workspace_id@ == b.workspace_id@ && a.version == b.version
    &&& a.schema_version == b.schema_version && a.name@ == b.name@ && a.description@ == b.description@
    &&& a.input_schema@ == b.input_schema@ && opt_same(a.output_schema, b.output_schema)
    &&& execution_same(a.execution, b.execution) && opt_same(a.credential_ref, b.credential_ref)
    &&& a.policy_ref@ == b.policy_ref@ && a.effect == b.effect && a.created_at == b.created_at
}

fn tool_equal(a: &Tool, b: &Tool) -> (r: bool)
    ensures
        r == tool_same(*a, *b),
{
    let exec = match (&a.execution, &b.execution) {
        (Execution::Registered { key: x }, Execution::Registered { key: y }) => *x == *y,
        (Execution::Http { endpoint: x }, Execution::Http { endpoint: y }) => *x == *y,
        (Execution::Sandbox { package: x }, Execution::Sandbox { package: y }) => *x == *y,
        _ => false,
    };
    a.id == b.id && a.workspace_id == b.workspace_id && a.version == b.version && a.schema_version == b.schema_version
        && a.name == b.name && a.description == b.description && a.input_schema == b.input_schema
        && opt_equal(&a.output_schema, &b.output_schema) && exec && opt_equal(&a.credential_ref, &b.credential_ref)
        && a.policy_ref == b.policy_ref && a.effect == b.effect && a.created_at == b.created_at
}

pub open spec fn bindings_same(a: Seq<AgentTool>, b: Seq<AgentTool>) -> bool {
    a.len() == b.len() && forall|k: int| 0 <= k < a.len() ==> (#[trigger] a[k]).alias@ == b[k].alias@ && a[k].tool_ref.same(b[k].tool_ref)
}

pub open spec fn agent_same(a: Agent, b: Agent) -> bool {
    &&& a.id@ == b.id@ && a.workspace_id@ == b.workspace_id@ && a.version == b.version
    &&& a.schema_version == b.schema_version && a.name@ == b.name@ && a.allow_user_input == b.allow_user_input
    &&& a.instructions@ == b.instructions@ && a.model@ == b.model@ && bindings_same(a.tools@, b.tools@)
    &&& opt_same(a.input_schema, b.input_schema) && opt_same(a.output_schema, b.output_schema)
    &&& a.limits == b.limits && a.created_at == b.created_at
}

fn agent_equal(a: &Agent, b: &Agent) -> (r: bool)
    ensures
        r == agent_same(*a, *b),
{
    if a.tools.len() != b.tools.len() {
        return false;
    }
    let mut k: usize = 0;
    while k < a.tools.len()
        invariant
            a.tools@.len() == b.tools@.len(),
            k <= a.tools@.len(),
            forall|m: int| 0 <= m < k ==> (#[trigger] a.tools@[m]).alias@ == b.tools@[m].alias@ && a.tools@[m].tool_ref.same(b.tools@[m].tool_ref),
        decreases a.tools@.len() - k,
    {
        if !(a.tools[k].alias == b.tools[k].alias && a.tools[k].tool_ref.equals(&b.tools[k].tool_ref)) {
            return false;
        }
        k = k + 1;
    }
    a.id == b.id && a.workspace_id == b.workspace_id && a.version == b.version && a.schema_version == b.schema_version
        && a.name == b.name && a.allow_user_input == b.allow_user_input && a.instructions == b.instructions
        && a.model == b.model && opt_equal(&a.input_schema, &b.input_schema) && opt_equal(&a.output_schema, &b.output_schema)
        && a.limits == b.limits && a.created_at == b.created_at
}

/// A definition identity: present id and workspace, positive version, current schema.
pub open spec fn identity_valid(id: Seq<char>, workspace: Seq<char>, version: u32, schema_version: u32) -> bool {
    !blank(id) && !blank(workspace) && version > 0 && schema_version == SCHEMA_VERSION
}

pub fn identity(id: &str, workspace: &str, version: u32, schema_version: u32) -> (r: Result<()>)
    ensures
        r is Ok <==> identity_valid(id@, workspace@, version, schema_version),
        r is Err ==> r matches Err(Error::Invalid(_)),
{
    if is_blank(id) || is_blank(workspace) || version == 0 || schema_version != SCHEMA_VERSION {
        return Err(invalid("invalid definition identity/version"));
    }
    Ok(())
}

pub open spec fn optional_schema_valid(s: Option<String>) -> bool {
    match s {
        None => true,
        Some(x) => schema_valid(x@),
    }
}

fn check_optional_schema(s: &Option<String>) -> (r: Result<()>)
    ensures
        r is Ok <==> optional_schema_valid(*s),
        r is Err ==> r matches Err(Error::Invalid(_)),
{
    match s {
        None => Ok(()),
        Some(x) => validate_schema(x.as_str()),
    }
}

/// The content rules of a tool version.
pub open spec fn tool_valid(t: Tool) -> bool {
    &&& identity_valid(t.id@, t.workspace_id@, t.version, t.schema_version)
    &&& !blank(t.name@) && !blank(t.policy_ref@)
    &&& schema_valid(t.input_schema@) && optional_schema_valid(t.output_schema)
}

/// Store a tool version. A published version is immutable: publishing it
/// again conflicts, unless `accept_identical` and the content is the same.
pub fn store_tool(d: &mut Data, tool: Tool, accept_identical: bool) -> (r: Result<()>)
    requires
        old(d).wf(),
    ensures
        final(d).wf(),
        crate::store::definitions_extended(*old(d), *final(d)),
        final(d).policies == old(d).policies,
        final(d).agents == old(d).agents,
        r is Err ==> *final(d) == *old(d),
        !tool_valid(tool) ==> r matches Err(Error::Invalid(_)),
        tool_valid(tool) && old(d).has_tool(tool.workspace_id@, VersionRef { id: tool.id, version: tool.version }) ==> {
            let existing = old(d).tool(tool.workspace_id@, VersionRef { id: tool.id, version: tool.version });
            &&& (accept_identical && tool_same(existing, tool)) ==> r is Ok
            &&& !(accept_identical && tool_same(existing, tool)) ==> (r matches Err(Error::Conflict(_)))
            &&& *final(d) == *old(d)
        },
        tool_valid(tool) && !old(d).has_tool(tool.workspace_id@, VersionRef { id: tool.id, version: tool.version }) ==> {
            &&& r is Ok
            &&& final(d).tools@ == old(d).tools@.push(tool)
            &&& final(d).runs == old(d).runs && final(d).agents == old(d).agents && final(d).operations == old(d).operations
        },
{
    identity(tool.id.as_str(), tool.workspace_id.as_str(), tool.version, tool.schema_version)?;
    if is_blank(tool.name.as_str()) || is_blank(tool.policy_ref.as_str()) {
        return Err(invalid("tool name and policy are required"));
    }
    validate_schema(tool.input_schema.as_str())?;
    check_optional_schema(&tool.output_schema)?;
    let r = tool.reference();
    proof {
        assert(r.same(VersionRef { id: tool.id, version: tool.version }));
    }
    match d.find_tool(&tool.workspace_id, &r) {
        Some(i) => {
            proof {
                assert(d.tool_index(tool.workspace_id@, r) == d.tool_index(tool.workspace_id@, VersionRef { id: tool.id, version: tool.version }));
            }
            if accept_identical && tool_equal(&d.tools[i], &tool) {
                return Ok(());
            }
            Err(conflict("tool version already published with immutable content"))
        },
        None => {
            d.tools.push(tool);
            Ok(())
        },
    }
}

pub fn publish_tool(d: &mut Data, tool: Tool) -> (r: Result<()>)
    requires
        old(d).wf(),
    ensures
        final(d).wf(),
        r is Err ==> *final(d) == *old(d),
        r is Ok <==> tool_valid(tool) && !old(d).has_tool(tool.workspace_id@, VersionRef { id: tool.id, version: tool.version }),
        r is Ok ==> final(d).tools@ == old(d).tools@.push(tool),
{
    store_tool(d, tool, false)
}

pub fn ensure_tool(d: &mut Data, tool: Tool) -> (r: Result<()>)
    requires
        old(d).wf(),
    ensures
        final(d).wf(),
        r is Err ==> *final(d) == *old(d),
        r is Ok <==> tool_valid(tool) && (!old(d).has_tool(tool.workspace_id@, VersionRef { id: tool.id, version: tool.version })
            || tool_same(old(d).tool(tool.workspace_id@, VersionRef { id: tool.id, version: tool.version }), tool)),
{
    store_tool(d, tool, true)
}

/// Tool aliases are present, distinct, and not the name reserved for user input.
pub open spec fn aliases_ok(a: Agent) -> bool {
    &&& forall|k: int| 0 <= k < a.tools@.len() ==> !blank((#[trigger] a.tools@[k]).alias@)
        && !(a.allow_user_input && a.tools@[k].alias@ == "ask_user"@)
    &&& forall|x: int, y: int| 0 <= x < y < a.tools@.len() ==> (#[trigger] a.tools@[x]).alias@ != (#[trigger] a.tools@[y]).alias@
}

pub open spec fn agent_valid(a: Agent) -> bool {
    &&& identity_valid(a.id@, a.workspace_id@, a.version, a.schema_version)
    &&& !blank(a.instructions@) && !blank(a.model@)
    &&& a.limits.all_positive()
    &&& optional_schema_valid(a.input_schema) && optional_schema_valid(a.output_schema)
    &&& aliases_ok(a)
}

/// Every tool an agent binds is published in its workspace.
pub open spec fn bindings_resolve(d: Data, a: Agent) -> bool {
    forall|k: int| 0 <= k < a.tools@.len() ==> d.has_tool(a.workspace_id@, (#[trigger] a.tools@[k]).tool_ref)
}

fn check_aliases(a: &Agent) -> (r: bool)
    ensures
        r == aliases_ok(*a),
{
    let mut k: usize = 0;
    while k < a.tools.len()
        invariant
            k <= a.tools@.len(),
            forall|m: int| 0 <= m < k ==> !blank((#[trigger] a.tools@[m]).alias@)
                && !(a.allow_user_input && a.tools@[m].alias@ == "ask_user"@),
            forall|x: int, y: int| 0 <= x < y < k ==> (#[trigger] a.tools@[x]).alias@ != (#[trigger] a.tools@[y]).alias@,
        decreases a.tools@.len() - k,
    {
        let alias = &a.tools[k].alias;
        if is_blank(alias.as_str()) || (a.allow_user_input && crate::text::str_equal(alias.as_str(), "ask_user")) {
            return false;
        }
        let mut j: usize = 0;
        while j < k
            invariant
                j <= k < a.tools@.len(),
                forall|m: int| 0 <= m < j ==> a.tools@[m].alias@ != a.tools@[k as int].alias@,
            decreases k - j,
        {
            if a.tools[j].alias == a.tools[k].alias {
                return false;
            }
            j = j + 1;
        }
        k = k + 1;
    }
    true
}

/// Store an agent version; it may bind only published tools of its
/// workspace. A published version is immutable, as for tools.
pub fn store_agent(d: &mut Data, agent: Agent, accept_identical: bool) -> (r: Result<()>)
    requires
        old(d).wf(),
    ensures
        final(d).wf(),
        crate::store::definitions_extended(*old(d), *final(d)),
        final(d).policies == old(d).policies,
        final(d).tools == old(d).tools,
        r is Err ==> *final(d) == *old(d),
        !agent_valid(agent) ==> r matches Err(Error::Invalid(_)),
        agent_valid(agent) && old(d).has_agent(agent.workspace_id@, VersionRef { id: agent.id, version: agent.version }) ==> {
            let existing = old(d).agent(agent.workspace_id@, VersionRef { id: agent.id, version: agent.version });
            &&& (accept_identical && agent_same(existing, agent)) ==> r is Ok
            &&& !(accept_identical && agent_same(existing, agent)) ==> (r matches Err(Error::Conflict(_)))
            &&& *final(d) == *old(d)
        },
        agent_valid(agent) && !old(d).has_agent(agent.workspace_id@, VersionRef { id: agent.id, version: agent.version }) ==> {
            &&& !bindings_resolve(*old(d), agent) ==> r == Err::<(), Error>(Error::NotFound)
            &&& bindings_resolve(*old(d), agent) ==> r is Ok && final(d).agents@ == old(d).agents@.push(agent)
                && final(d).tools == old(d).tools && final(d).runs == old(d).runs
        },
{
    identity(agent.id.as_str(), agent.workspace_id.as_str(), agent.version, agent.schema_version)?;
    if is_blank(agent.instructions.as_str()) || is_blank(agent.model.as_str()) {
        return Err(invalid("agent instructions and model are required"));
    }
    agent.limits.validate()?;
    check_optional_schema(&agent.input_schema)?;
    check_optional_schema(&agent.output_schema)?;
    if !check_aliases(&agent) {
        return Err(invalid("tool aliases must be nonempty, unique, and not reserved by user input"));
    }
    let r = agent.reference();
    proof {
        assert(d.agent_index(agent.workspace_id@, r) == d.agent_index(agent.workspace_id@, VersionRef { id: agent.id, version: agent.version }));
    }
    match d.find_agent(&agent.workspace_id, &r) {
        Some(i) => {
            if accept_identical && agent_equal(&d.agents[i], &agent) {
                return Ok(());
            }
            return Err(conflict("agent version already published with immutable content"));
        },
        None => {},
    }
    let mut k: usize = 0;
    while k < agent.tools.len()
        invariant
            d.wf(),
            *d == *old(d),
            agent_valid(agent),
            !d.has_agent(agent.workspace_id@, VersionRef { id: agent.id, version: agent.version }),
            k <= agent.tools@.len(),
            forall|m: int| 0 <= m < k ==> d.has_tool(agent.workspace_id@, (#[trigger] agent.tools@[m]).tool_ref),
        decreases agent.tools@.len() - k,
    {
        if d.find_tool(&agent.workspace_id, &agent.tools[k].tool_ref).is_none() {
            return Err(Error::NotFound);
        }
        k = k + 1;
    }
    d.agents.push(agent);
    Ok(())
}

pub fn publish_agent(d: &mut Data, agent: Agent) -> (r: Result<()>)
    requires
        old(d).wf(),
    ensures
        final(d).wf(),
        r is Err ==> *final(d) == *old(d),
        r is Ok <==> agent_valid(agent) && !old(d).has_agent(agent.workspace_id@, VersionRef { id: agent.id, version: agent.version })
            && bindings_resolve(*old(d), agent),
        r is Ok ==> final(d).agents@ == old(d).agents@.push(agent),
{
    store_agent(d, agent, false)
}

pub fn ensure_agent(d: &mut Data, agent: Agent) -> (r: Result<()>)
    requires
        old(d).wf(),
    ensures
        final(d).wf(),
        r is Err ==> *final(d) == *old(d),
        r is Ok <==> agent_valid(agent) && (if old(d).has_agent(agent.workspace_id@, VersionRef { id: agent.id, version: agent.version }) {
            agent_same(old(d).agent(agent.workspace_id@, VersionRef { id: agent.id, version: agent.version }), agent)
        } else {
            bindings_resolve(*old(d), agent)
        }),
{
    store_agent(d, agent, true)
}

/// Published versions are immutable: once a tool version is stored, no other
/// content can be published under its reference.
pub proof fn law_published_tool_is_immutable(d: Data, tool: Tool)
    requires
        d.has_tool(tool.workspace_id@, VersionRef { id: tool.id, version: tool.version }),
        !tool_same(d.tool(tool.workspace_id@, VersionRef { id: tool.id, version: tool.version }), tool),
    ensures
        !(tool_valid(tool) && !d.has_tool(tool.workspace_id@, VersionRef { id: tool.id, version: tool.version })),
{
}

} // verus!

verus! {

/// The table keeps no other rows than before, plus the bindings table.
pub open spec fn only_bindings_changed(old: Data, new: Data) -> bool {
    &&& new.runs == old.runs && new.operations == old.operations && new.logs == old.logs
    &&& new.agents == old.agents && new.tools == old.tools && new.policies == old.policies
    &&& new.submissions == old.submissions && new.inputs == old.inputs
    &&& new.model_budgets == old.model_budgets && new.team_tasks == old.team_tasks
    &&& new.schedule_requests == old.schedule_requests
}

impl Data {
    pub open spec fn has_model_binding(&self, workspace: Seq<char>, agent: VersionRef) -> bool {
        exists|i: int| 0 <= i < self.model_bindings@.len() && self.model_bindings@[i].workspace@ == workspace
            && self.model_bindings@[i].agent.same(agent)
    }

    pub open spec fn model_binding_index(&self, workspace: Seq<char>, agent: VersionRef) -> int {
        choose|i: int| 0 <= i < self.model_bindings@.len() && self.model_bindings@[i].workspace@ == workspace
            && self.model_bindings@[i].agent.same(agent)
    }

    /// The fingerprint pinned to an agent version.
    pub open spec fn model_binding(&self, workspace: Seq<char>, agent: VersionRef) -> Seq<char> {
        self.model_bindings@[self.model_binding_index(workspace, agent)].fingerprint@
    }

    fn find_model_binding(&self, workspace: &str, agent: &VersionRef) -> (r: Option<usize>)
        requires
            self.wf(),
        ensures
            r is Some <==> self.has_model_binding(workspace@, *agent),
            r matches Some(i) ==> i == self.model_binding_index(workspace@, *agent) && i < self.model_bindings@.len(),
    {
        let mut i: usize = 0;
        while i < self.model_bindings.len()
            invariant
                self.wf(),
                i <= self.model_bindings@.len(),
                forall|k: int| 0 <= k < i ==> !(self.model_bindings@[k].workspace@ == workspace@
                    && self.model_bindings@[k].agent.same(*agent)),
            decreases self.model_bindings@.len() - i,
        {
            let b = &self.model_bindings[i];
            if crate::text::str_equal(b.workspace.as_str(), workspace) && b.agent.equals(agent) {
                assert(self.has_model_binding(workspace@, *agent));
                let ghost j = self.model_binding_index(workspace@, *agent);
                assert(self.model_bindings@[j].workspace@ == workspace@ && self.model_bindings@[j].agent.same(*agent));
                assert(self.model_bindings@[i as int].workspace@ == workspace@ && self.model_bindings@[i as int].agent.same(*agent));
                proof {
                    assert(crate::store::model_binding_keys_unique(self.model_bindings@));
                    if j != i as int {
                        assert(!(self.model_bindings@[j].workspace@ == self.model_bindings@[i as int].workspace@
                            && self.model_bindings@[j].agent.same(self.model_bindings@[i as int].agent)));
                    }
                }
                return Some(i);
            }
            i = i + 1;
        }
        None
    }
}

/// Pin the host's non-secret model transport configuration (its
/// fingerprint) to a published agent version. The first binding stays: a
/// different fingerprint later is a conflict, the same one is accepted.
pub fn bind_model_transport(d: &mut Data, workspace: &str, agent: &VersionRef, fingerprint: &str) -> (r: Result<()>)
    requires
        old(d).wf(),
    ensures
        final(d).wf(),
        crate::store::definitions_extended(*old(d), *final(d)),
        final(d).policies == old(d).policies,
        final(d).agents == old(d).agents,
        final(d).tools == old(d).tools,
        r is Err ==> *final(d) == *old(d),
        !old(d).has_agent(workspace@, *agent) ==> r == Err::<(), Error>(Error::NotFound),
        old(d).has_agent(workspace@, *agent) && old(d).has_model_binding(workspace@, *agent) ==> {
            &&& r is Ok <==> old(d).model_binding(workspace@, *agent) == fingerprint@
            &&& r is Err ==> (r matches Err(Error::Conflict(_)))
            &&& *final(d) == *old(d)
        },
        old(d).has_agent(workspace@, *agent) && !old(d).has_model_binding(workspace@, *agent) ==> {
            &&& r is Ok
            &&& only_bindings_changed(*old(d), *final(d))
            &&& final(d).model_bindings@.drop_last() == old(d).model_bindings@
            &&& final(d).model_bindings@.len() == old(d).model_bindings@.len() + 1
            &&& final(d).has_model_binding(workspace@, *agent)
            &&& final(d).model_binding(workspace@, *agent) == fingerprint@
        },
{
    let ws = crate::error::text(workspace);
    if d.find_agent(&ws, agent).is_none() {
        return Err(Error::NotFound);
    }
    match d.find_model_binding(workspace, agent) {
        Some(i) => {
            if !crate::text::str_equal(d.model_bindings[i].fingerprint.as_str(), fingerprint) {
                return Err(conflict("agent model transport changed; publish a new version"));
            }
            Ok(())
        },
        None => {
            let ghost before = d.model_bindings@;
            d.model_bindings.push(crate::store::ModelBinding {
                workspace: ws,
                agent: agent.copy(),
                fingerprint: crate::error::text(fingerprint),
            });
            proof {
                assert(d.model_bindings@.drop_last() =~= before);
                let n = before.len() as int;
                assert(d.has_model_binding(workspace@, *agent)) by {
                    assert(d.model_bindings@[n].workspace@ == workspace@);
                }
                let j = d.model_binding_index(workspace@, *agent);
                assert(j == n) by {
                    if j != n {
                        assert(d.model_bindings@[j] == before[j]);
                    }
                }
            }
            Ok(())
        },
    }
}


/// What the agent loop is told of one bound tool: its alias, description
/// and input schema, as a JSON object.
pub open spec fn loop_tool_json(alias: Seq<char>, tool: Tool) -> Seq<char> {
    "{\"name\":"@ + crate::primitives::json_string(alias) + ",\"description\":"@
        + crate::primitives::json_string(tool.description@) + ",\"input_schema\":"@ + tool.input_schema@ + "}"@
}

/// The members of the loop's tool list for the first `n` bindings.
pub open spec fn loop_tool_items(d: Data, workspace: Seq<char>, bindings: Seq<AgentTool>, n: int) -> Seq<char>
    decreases n,
{
    if n <= 0 {
        Seq::empty()
    } else if n == 1 {
        loop_tool_json(bindings[0].alias@, d.tool(workspace, bindings[0].tool_ref))
    } else {
        loop_tool_items(d, workspace, bindings, n - 1) + ","@
            + loop_tool_json(bindings[n - 1].alias@, d.tool(workspace, bindings[n - 1].tool_ref))
    }
}

/// The JSON array of the tools an agent's loop may call, in binding order.
pub open spec fn loop_tools_json(d: Data, workspace: Seq<char>, agent: Agent) -> Seq<char> {
    "["@ + loop_tool_items(d, workspace, agent.tools@, agent.tools@.len() as int) + "]"@
}

/// The tool list handed to the agent loop for `agent` in `workspace`: each
/// binding's alias with its published tool's description and input schema.
/// A binding whose tool is not published is not found.
pub fn loop_tools(d: &Data, workspace: &String, agent: &Agent) -> (r: Result<String>)
    requires
        d.wf(),
    ensures
        (forall|k: int| 0 <= k < agent.tools@.len() ==> d.has_tool(workspace@, (#[trigger] agent.tools@[k]).tool_ref))
            ==> (r matches Ok(t) && t@ == loop_tools_json(*d, workspace@, *agent)),
        !(forall|k: int| 0 <= k < agent.tools@.len() ==> d.has_tool(workspace@, (#[trigger] agent.tools@[k]).tool_ref))
            ==> r == Err::<String, Error>(Error::NotFound),
{
    let mut out = text("[");
    let mut k: usize = 0;
    while k < agent.tools.len()
        invariant
            d.wf(),
            k <= agent.tools@.len(),
            out@ == "["@ + loop_tool_items(*d, workspace@, agent.tools@, k as int),
            forall|j: int| 0 <= j < k ==> d.has_tool(workspace@, (#[trigger] agent.tools@[j]).tool_ref),
        decreases agent.tools@.len() - k,
    {
        let b = &agent.tools[k];
        let i = match d.find_tool(workspace, &b.tool_ref) {
            None => return Err(Error::NotFound),
            Some(i) => i,
        };
        let ghost before = out@;
        if k > 0 {
            put(&mut out, ",");
        }
        put(&mut out, "{\"name\":");
        put_quoted(&mut out, b.alias.as_str());
        put(&mut out, ",\"description\":");
        put_quoted(&mut out, d.tools[i].description.as_str());
        put(&mut out, ",\"input_schema\":");
        put(&mut out, d.tools[i].input_schema.as_str());
        put(&mut out, "}");
        proof {
            let e = loop_tool_json(b.alias@, d.tool(workspace@, b.tool_ref));
            if k == 0 {
                assert(out@ =~= before + e);
                assert(loop_tool_items(*d, workspace@, agent.tools@, 1) == e);
            } else {
                assert(out@ =~= before + ","@ + e);
            }
            assert(out@ =~= "["@ + loop_tool_items(*d, workspace@, agent.tools@, k as int + 1));
        }
        k = k + 1;
    }
    put(&mut out, "]");
    Ok(out)
}

} // verus!
