//! Restricted customer definitions resolved against installation-owned
//! capabilities. Callers never supply credential names, endpoints or actors;
//! installed capability versions are immutable, and a customer's tool or
//! agent can never weaken the floors and ceilings of the installation.
use vstd::prelude::*;
use crate::error::{conflict, invalid, text, Error, Result};
use crate::json::{digest_text, put, put_decimal, put_quoted, text_digest};
use crate::primitives::{decimal, json_string};
use crate::models::{Actor, Effect, Limits, VersionRef};
use crate::primitives::now;
use crate::store::Data;
use crate::text::{blank, is_blank, utf8_len};

verus! {

#[derive(Clone, Debug, PartialEq, Eq, PartialOrd, Ord)]
pub struct Reference {
    pub id: String,
    pub version: u32,
}

pub open spec fn name_char(c: char) -> bool {
    ('a' <= c <= 'z') || ('A' <= c <= 'Z') || ('0' <= c <= '9') || c == '-' || c == '_'
}

/// A definition name: 1 to 64 ASCII letters, digits, hyphens or underscores.
pub open spec fn name_valid(s: Seq<char>) -> bool {
    &&& 1 <= s.len() <= 64
    &&& forall|i: int| 0 <= i < s.len() ==> name_char(#[trigger] s[i])
}

pub fn name(value: &str) -> (r: Result<()>)
    ensures
        r is Ok <==> name_valid(value@),
        r is Err ==> r matches Err(Error::Invalid(_)),
{
    let mut ok = true;
    let mut n: usize = 0;
    for c in it: value.chars()
        invariant
            it.seq() == value@,
            n == (if it.index() < 65 { it.index() } else { 65 }),
            ok == (forall|k: int| 0 <= k < it.index() ==> name_char(#[trigger] value@[k])),
    {
        if !(('a' <= c && c <= 'z') || ('A' <= c && c <= 'Z') || ('0' <= c && c <= '9') || c == '-' || c == '_') {
            ok = false;
        }
        if n < 65 {
            n = n + 1;
        }
    }
    if !ok || n == 0 || n > 64 {
        return Err(invalid("names require 1 to 64 ASCII letters, digits, hyphens or underscores"));
    }
    Ok(())
}

impl Reference {
    pub open spec fn valid(self) -> bool {
        name_valid(self.id@) && self.version > 0
    }

    pub fn validate(&self) -> (r: Result<()>)
        ensures
            r is Ok <==> self.valid(),
            r is Err ==> r matches Err(Error::Invalid(_)),
    {
        name(self.id.as_str())?;
        if self.version == 0 {
            return Err(invalid("version must be positive"));
        }
        Ok(())
    }

    pub fn version_ref(&self) -> (r: VersionRef)
        ensures
            r.id@ == self.id@,
            r.version == self.version,
    {
        VersionRef { id: self.id.clone(), version: self.version }
    }

    pub open spec fn same(self, o: Reference) -> bool {
        self.id@ == o.id@ && self.version == o.version
    }
}

pub fn yes() -> (r: bool)
    ensures
        r,
{
    true
}

pub fn write() -> (r: Effect)
    ensures
        r == Effect::Write,
{
    Effect::Write
}

pub fn total_budget() -> (r: u32)
    ensures
        r == 32,
{
    32
}

pub fn output_tokens() -> (r: u32)
    ensures
        r == 1024,
{
    1024
}

/// What the public description of a catalog shows of a model profile.
pub struct ModelSummary {
    pub reference: Reference,
    pub provider: String,
    pub model: String,
}

/// What the public description of a catalog shows of a connection.
pub struct ConnectionSummary {
    pub reference: Reference,
    pub effect: Effect,
    pub require_approval: bool,
}

/// The public description of a catalog: references and policy constraints,
/// with no field for an endpoint or a credential's name.
pub struct CatalogSummary {
    pub models: Vec<ModelSummary>,
    pub connections: Vec<ConnectionSummary>,
    pub limits: Limits,
    pub max_total_model_calls: u32,
}

fn copy_reference(r: &Reference) -> (c: Reference)
    ensures
        c.same(*r),
{
    Reference { id: r.id.clone(), version: r.version }
}

/// Trusted installation file. Its owner is checked against the authenticated host.
pub struct HostCatalog {
    pub owner: Actor,
    pub models: Vec<ModelProfile>,
    pub connections: Vec<ToolConnection>,
    pub limits: Limits,
    pub max_total_model_calls: u32,
}

pub struct ModelProfile {
    pub reference: Reference,
    pub provider: String,
    pub model: String,
    pub endpoint: String,
    pub api_key_env: Option<String>,
    pub max_output_tokens: u32,
}

pub struct ToolConnection {
    pub reference: Reference,
    pub transport: ConnectionTransport,
    pub effect: Effect,
    pub require_approval: bool,
}

pub enum ConnectionTransport {
    Http { endpoint: String, token_env: Option<String> },
    Mcp { endpoint: String, bearer_env: Option<String>, remote_name: String },
}

/// What a customer agent may use of the runtime.
#[derive(Clone, Copy, Debug, PartialEq, Eq, Structural)]
pub struct Capabilities {
    pub context: bool,
    pub memory: bool,
    pub user_input: bool,
}

impl Default for Capabilities {
    fn default() -> (r: Capabilities)
        ensures
            r == (Capabilities { context: true, memory: false, user_input: true }),
    {
        Capabilities { context: true, memory: false, user_input: true }
    }
}

pub struct InlineSkill {
    pub name: String,
    pub description: String,
    pub instructions: String,
}

/// The receipt of an installed or published definition version.
#[derive(Debug, PartialEq, Eq)]
pub struct DefinitionReceipt {
    pub reference: Reference,
    pub digest: String,
    pub created_at: u64,
}

impl HostCatalog {
    /// Only the catalog's owner, with a present identity, may use it.
    pub open spec fn authorizes(&self, actor: Actor) -> bool {
        &&& actor.workspace_id@ == self.owner.workspace_id@
        &&& actor.id@ == self.owner.id@
        &&& !blank(actor.id@)
        &&& !blank(actor.workspace_id@)
    }

    pub fn authorize(&self, actor: &Actor) -> (r: Result<()>)
        ensures
            r is Ok <==> self.authorizes(*actor),
            r is Err ==> r == Err::<(), Error>(Error::Denied),
    {
        if actor.workspace_id != self.owner.workspace_id || actor.id != self.owner.id || is_blank(actor.id.as_str())
            || is_blank(actor.workspace_id.as_str()) {
            return Err(Error::Denied);
        }
        Ok(())
    }

    /// Describe the catalog to its owner: each model's reference, provider
    /// and model name, each connection's reference, effect floor and approval
    /// floor, the limits and the total model-call budget.
    pub fn capabilities(&self, actor: &Actor) -> (r: Result<CatalogSummary>)
        ensures
            !self.authorizes(*actor) ==> r == Err::<CatalogSummary, Error>(Error::Denied),
            self.authorizes(*actor) ==> (r matches Ok(s) && {
                &&& s.models@.len() == self.models@.len()
                &&& forall|i: int| 0 <= i < s.models@.len() ==> {
                    &&& (#[trigger] s.models@[i]).reference.same(self.models@[i].reference)
                    &&& s.models@[i].provider@ == self.models@[i].provider@
                    &&& s.models@[i].model@ == self.models@[i].model@
                }
                &&& s.connections@.len() == self.connections@.len()
                &&& forall|i: int| 0 <= i < s.connections@.len() ==> {
                    &&& (#[trigger] s.connections@[i]).reference.same(self.connections@[i].reference)
                    &&& s.connections@[i].effect == self.connections@[i].effect
                    &&& s.connections@[i].require_approval == self.connections@[i].require_approval
                }
                &&& s.limits == self.limits
                &&& s.max_total_model_calls == self.max_total_model_calls
            }),
    {
        self.authorize(actor)?;
        let mut models: Vec<ModelSummary> = Vec::new();
        let mut i: usize = 0;
        while i < self.models.len()
            invariant
                i <= self.models@.len(),
                models@.len() == i,
                forall|k: int| 0 <= k < i ==> {
                    &&& (#[trigger] models@[k]).reference.same(self.models@[k].reference)
                    &&& models@[k].provider@ == self.models@[k].provider@
                    &&& models@[k].model@ == self.models@[k].model@
                },
            decreases self.models@.len() - i,
        {
            let m = &self.models[i];
            models.push(ModelSummary { reference: copy_reference(&m.reference), provider: m.provider.clone(), model: m.model.clone() });
            i = i + 1;
        }
        let mut connections: Vec<ConnectionSummary> = Vec::new();
        let mut j: usize = 0;
        while j < self.connections.len()
            invariant
                j <= self.connections@.len(),
                connections@.len() == j,
                forall|k: int| 0 <= k < j ==> {
                    &&& (#[trigger] connections@[k]).reference.same(self.connections@[k].reference)
                    &&& connections@[k].effect == self.connections@[k].effect
                    &&& connections@[k].require_approval == self.connections@[k].require_approval
                },
            decreases self.connections@.len() - j,
        {
            let c = &self.connections[j];
            connections.push(ConnectionSummary {
                reference: copy_reference(&c.reference),
                effect: c.effect,
                require_approval: c.require_approval,
            });
            j = j + 1;
        }
        Ok(CatalogSummary { models, connections, limits: self.limits.copy(), max_total_model_calls: self.max_total_model_calls })
    }

    /// The catalog's own bounds: valid limits, 1 to 32 models, at most 256
    /// connections and a positive total model-call budget.
    pub open spec fn bounds_valid(&self) -> bool {
        &&& self.limits.all_positive()
        &&& 1 <= self.models@.len() <= 32
        &&& self.connections@.len() <= 256
        &&& self.max_total_model_calls > 0
    }

    pub fn check_bounds(&self) -> (r: Result<()>)
        ensures
            r is Ok <==> self.bounds_valid(),
            r is Err ==> r matches Err(Error::Invalid(_)),
    {
        self.limits.validate()?;
        if self.models.len() == 0 || self.models.len() > 32 || self.connections.len() > 256 || self.max_total_model_calls == 0 {
            return Err(invalid("invalid host capability limits"));
        }
        Ok(())
    }
}

/// The effect and approval that a customer tool gets on a connection: its own
/// choice where it makes one, the connection's otherwise. A tool can neither
/// read through a writing connection nor drop a required approval.
pub open spec fn tool_policy(connection_effect: Effect, connection_approval: bool, effect: Option<Effect>, approval: Option<bool>) -> Option<(Effect, bool)> {
    let e = match effect { Some(e) => e, None => connection_effect };
    let a = match approval { Some(a) => a, None => connection_approval };
    if (connection_effect is Write && e is Read) || (connection_approval && !a) {
        None
    } else {
        Some((e, a))
    }
}

pub fn effective_policy(connection: &ToolConnection, effect: Option<Effect>, approval: Option<bool>) -> (r: Result<(Effect, bool)>)
    ensures
        r is Ok <==> tool_policy(connection.effect, connection.require_approval, effect, approval) is Some,
        r matches Ok(p) ==> tool_policy(connection.effect, connection.require_approval, effect, approval) == Some(p),
        r is Err ==> r == Err::<(Effect, bool), Error>(Error::Denied),
{
    let e = match effect {
        Some(e) => e,
        None => connection.effect,
    };
    let a = match approval {
        Some(a) => a,
        None => connection.require_approval,
    };
    if (connection.effect == Effect::Write && e == Effect::Read) || (connection.require_approval && !a) {
        return Err(Error::Denied);
    }
    Ok((e, a))
}

/// Every limit of `requested` is within the installation's ceiling.
pub open spec fn within_ceiling(requested: Limits, ceiling: Limits) -> bool {
    &&& requested.max_harness_steps <= ceiling.max_harness_steps
    &&& requested.max_model_calls <= ceiling.max_model_calls
    &&& requested.max_operations <= ceiling.max_operations
    &&& requested.max_batch_size <= ceiling.max_batch_size
    &&& requested.max_context_bytes <= ceiling.max_context_bytes
    &&& requested.max_payload_bytes <= ceiling.max_payload_bytes
}

/// The limits of a customer agent: its own (or the catalog's), valid and
/// within the catalog's ceiling.
pub fn agent_limits(catalog: &HostCatalog, requested: Option<&Limits>) -> (r: Result<Limits>)
    ensures
        ({
            let l = match requested { Some(l) => *l, None => catalog.limits };
            &&& !l.all_positive() ==> (r matches Err(Error::Invalid(_)))
            &&& l.all_positive() && !within_ceiling(l, catalog.limits) ==> r == Err::<Limits, Error>(Error::Denied)
            &&& l.all_positive() && within_ceiling(l, catalog.limits) ==> r == Ok::<Limits, Error>(l)
        }),
{
    let l = match requested {
        Some(l) => l.copy(),
        None => catalog.limits.copy(),
    };
    l.validate()?;
    let c = &catalog.limits;
    if l.max_harness_steps > c.max_harness_steps || l.max_model_calls > c.max_model_calls || l.max_operations > c.max_operations
        || l.max_batch_size > c.max_batch_size || l.max_context_bytes > c.max_context_bytes
        || l.max_payload_bytes > c.max_payload_bytes {
        return Err(Error::Denied);
    }
    Ok(l)
}

/// The shared model budget of a published root: its own (or the catalog's
/// total), positive and within the catalog's total.
pub fn root_budget(catalog: &HostCatalog, requested: Option<u32>) -> (r: Result<u32>)
    ensures
        ({
            let b = match requested { Some(b) => b, None => catalog.max_total_model_calls };
            &&& (b == 0 || b > catalog.max_total_model_calls) ==> r == Err::<u32, Error>(Error::Denied)
            &&& (0 < b <= catalog.max_total_model_calls) ==> r == Ok::<u32, Error>(b)
        }),
{
    let b = match requested {
        Some(b) => b,
        None => catalog.max_total_model_calls,
    };
    if b == 0 || b > catalog.max_total_model_calls {
        return Err(Error::Denied);
    }
    Ok(b)
}

/// The structural bounds of one agent of a published tree, at `depth` (the
/// root is 0) and as the `count`-th agent compiled.
pub open spec fn agent_bounds_ok(depth: usize, count: usize, tools: nat, skills: nat, name: Seq<char>, version: u32,
    profile: Reference, instructions: Seq<char>, has_budget: bool) -> bool {
    &&& depth <= 8 && count <= 32 && tools <= 64 && skills <= 32
    &&& name_valid(name) && version > 0
    &&& profile.valid()
    &&& !blank(instructions) && utf8_len(instructions) <= 32768
    &&& !(depth > 0 && has_budget)
}

pub fn check_agent_bounds(depth: usize, count: usize, tools: usize, skills: usize, name_text: &String, version: u32,
    profile: &Reference, instructions: &String, has_budget: bool) -> (r: Result<()>)
    ensures
        r is Ok <==> agent_bounds_ok(depth, count, tools as nat, skills as nat, name_text@, version, *profile, instructions@, has_budget),
        r is Err ==> r matches Err(Error::Invalid(_)),
{
    if depth > 8 || count > 32 || tools > 64 || skills > 32 {
        return Err(invalid("agent tree exceeds publication limits"));
    }
    name(name_text.as_str())?;
    if version == 0 {
        return Err(invalid("version must be positive"));
    }
    profile.validate()?;
    if is_blank(instructions.as_str()) || crate::text::byte_length(instructions) > 32768 {
        return Err(invalid("instructions require 1 to 32768 bytes"));
    }
    if depth > 0 && has_budget {
        return Err(invalid("shared model budget belongs to the root"));
    }
    Ok(())
}

/// An installed capability version of an owner.
pub struct RegistryEntry {
    pub workspace: String,
    pub actor_id: String,
    pub kind: String,
    pub reference: VersionRef,
    pub receipt: DefinitionReceipt,
    /// The JSON text of the installed definition.
    pub value: String,
}

/// One capability version to install: its kind, reference and JSON text.
pub struct RegistryInput {
    pub kind: String,
    pub reference: Reference,
    pub value: String,
}

/// The registry key of an entry: owner, kind and version.
pub open spec fn entry_key(e: RegistryEntry) -> (Seq<char>, Seq<char>, Seq<char>, Seq<char>, u32) {
    (e.workspace@, e.actor_id@, e.kind@, e.reference.id@, e.reference.version)
}

pub open spec fn input_key(actor: Actor, i: RegistryInput) -> (Seq<char>, Seq<char>, Seq<char>, Seq<char>, u32) {
    (actor.workspace_id@, actor.id@, i.kind@, i.reference.id@, i.reference.version)
}

pub open spec fn registry_keys_unique(p: Seq<RegistryEntry>) -> bool {
    forall|i: int, j: int| 0 <= i < p.len() && 0 <= j < p.len() && i != j ==> entry_key(p[i]) != entry_key(p[j])
}

impl Data {
    pub open spec fn registered(&self, key: (Seq<char>, Seq<char>, Seq<char>, Seq<char>, u32)) -> bool {
        exists|i: int| 0 <= i < self.customer_registry@.len() && entry_key(self.customer_registry@[i]) == key
    }

    pub open spec fn registry_index(&self, key: (Seq<char>, Seq<char>, Seq<char>, Seq<char>, u32)) -> int {
        choose|i: int| 0 <= i < self.customer_registry@.len() && entry_key(self.customer_registry@[i]) == key
    }

    /// The digest of the version installed under a key.
    pub open spec fn registered_digest(&self, key: (Seq<char>, Seq<char>, Seq<char>, Seq<char>, u32)) -> Seq<char> {
        self.customer_registry@[self.registry_index(key)].receipt.digest@
    }

    fn find_registered(&self, actor: &Actor, kind: &String, reference: &Reference) -> (r: Option<usize>)
        requires
            self.wf(),
        ensures
            r is Some <==> self.registered((actor.workspace_id@, actor.id@, kind@, reference.id@, reference.version)),
            r matches Some(i) ==> i == self.registry_index((actor.workspace_id@, actor.id@, kind@, reference.id@, reference.version))
                && i < self.customer_registry@.len(),
    {
        let ghost key = (actor.workspace_id@, actor.id@, kind@, reference.id@, reference.version);
        let mut i: usize = 0;
        while i < self.customer_registry.len()
            invariant
                self.wf(),
                key == (actor.workspace_id@, actor.id@, kind@, reference.id@, reference.version),
                i <= self.customer_registry@.len(),
                forall|k: int| 0 <= k < i ==> entry_key(self.customer_registry@[k]) != key,
            decreases self.customer_registry@.len() - i,
        {
            let e = &self.customer_registry[i];
            if e.workspace == actor.workspace_id && e.actor_id == actor.id && e.kind == *kind && e.reference.id == reference.id
                && e.reference.version == reference.version {
                assert(entry_key(self.customer_registry@[i as int]) == key);
                assert(self.registered(key));
                let ghost j = self.registry_index(key);
                assert(j == i);
                return Some(i);
            }
            i = i + 1;
        }
        None
    }
}

/// A batch can be installed: no key twice, and every key already installed
/// holds exactly the same definition.
pub open spec fn installable(d: Data, actor: Actor, batch: Seq<RegistryInput>) -> bool {
    &&& forall|a: int, b: int| 0 <= a < b < batch.len() ==> input_key(actor, batch[a]) != input_key(actor, batch[b])
    &&& forall|k: int| 0 <= k < batch.len() && d.registered(input_key(actor, #[trigger] batch[k]))
        ==> d.registered_digest(input_key(actor, batch[k])) == text_digest(batch[k].value@)
}

/// Installed versions are immutable: a batch that carries different content
/// under a reference that is already installed cannot be installed.
pub proof fn installed_versions_are_immutable(d: Data, actor: Actor, batch: Seq<RegistryInput>, k: int)
    requires
        0 <= k < batch.len(),
        d.registered(input_key(actor, batch[k])),
        d.registered_digest(input_key(actor, batch[k])) != text_digest(batch[k].value@),
    ensures
        !installable(d, actor, batch),
{
}

/// Installing again exactly what is installed is accepted.
pub proof fn reinstalling_the_same_content_is_accepted(d: Data, actor: Actor, batch: Seq<RegistryInput>)
    requires
        forall|a: int, b: int| 0 <= a < b < batch.len() ==> input_key(actor, batch[a]) != input_key(actor, batch[b]),
        forall|k: int| 0 <= k < batch.len() ==> d.registered(input_key(actor, #[trigger] batch[k]))
            && d.registered_digest(input_key(actor, batch[k])) == text_digest(batch[k].value@),
    ensures
        installable(d, actor, batch),
{
}

fn key_repeated(actor: &Actor, batch: &Vec<RegistryInput>, k: usize) -> (r: bool)
    requires
        k < batch@.len(),
    ensures
        r == exists|a: int| 0 <= a < k && input_key(*actor, batch@[a]) == input_key(*actor, batch@[k as int]),
{
    let mut a: usize = 0;
    while a < k
        invariant
            a <= k < batch@.len(),
            forall|m: int| 0 <= m < a ==> input_key(*actor, batch@[m]) != input_key(*actor, batch@[k as int]),
        decreases k - a,
    {
        let x = &batch[a];
        let y = &batch[k];
        if x.kind == y.kind && x.reference.id == y.reference.id && x.reference.version == y.reference.version {
            return true;
        }
        a = a + 1;
    }
    false
}

/// Install a batch of capability versions in one transaction: all of them,
/// or (on any duplicate or changed version) none. An installed version is
/// immutable: installing it again is accepted only with the same definition.
#[verifier::rlimit(40)]
fn install_entries(d: &mut Data, actor: &Actor, batch: &Vec<RegistryInput>) -> (r: Result<()>)
    requires
        old(d).wf(),
    ensures
        final(d).wf(),
        r is Err ==> *final(d) == *old(d),
        r is Ok <==> installable(*old(d), *actor, batch@),
        r is Err ==> (r matches Err(Error::Invalid(_)) || r matches Err(Error::Conflict(_))),
        r is Ok ==> {
            &&& final(d).customer_registry@.len() >= old(d).customer_registry@.len()
            &&& final(d).customer_registry@.subrange(0, old(d).customer_registry@.len() as int) == old(d).customer_registry@
            &&& forall|k: int| 0 <= k < batch@.len() ==> final(d).registered(input_key(*actor, #[trigger] batch@[k]))
                && final(d).registered_digest(input_key(*actor, batch@[k])) == text_digest(batch@[k].value@)
            &&& forall|key| #[trigger] final(d).registered(key) ==> old(d).registered(key)
                || exists|k: int| 0 <= k < batch@.len() && input_key(*actor, batch@[k]) == key
        },
{
    let mut digests: Vec<String> = Vec::new();
    let mut k: usize = 0;
    while k < batch.len()
        invariant
            d.wf(),
            k <= batch@.len(),
            digests@.len() == k,
            forall|m: int| 0 <= m < k ==> (#[trigger] digests@[m])@ == text_digest(batch@[m].value@),
            forall|a: int, b: int| 0 <= a < b < k ==> input_key(*actor, batch@[a]) != input_key(*actor, batch@[b]),
            forall|m: int| 0 <= m < k && d.registered(input_key(*actor, #[trigger] batch@[m]))
                ==> d.registered_digest(input_key(*actor, batch@[m])) == text_digest(batch@[m].value@),
        decreases batch@.len() - k,
    {
        if key_repeated(actor, batch, k) {
            return Err(invalid("duplicate host capability reference"));
        }
        let expected = digest_text(&batch[k].value);
        match d.find_registered(actor, &batch[k].kind, &batch[k].reference) {
            Some(i) => {
                if d.customer_registry[i].receipt.digest != expected {
                    return Err(conflict("host capability version is immutable"));
                }
            },
            None => {},
        }
        digests.push(expected);
        k = k + 1;
    }
    let ghost start = *d;
    let mut k: usize = 0;
    while k < batch.len()
        invariant
            d.wf(),
            start.wf(),
            installable(start, *actor, batch@),
            k <= batch@.len(),
            digests@.len() == batch@.len(),
            forall|m: int| 0 <= m < batch@.len() ==> (#[trigger] digests@[m])@ == text_digest(batch@[m].value@),
            d.customer_registry@.len() >= start.customer_registry@.len(),
            d.customer_registry@.subrange(0, start.customer_registry@.len() as int) == start.customer_registry@,
            forall|m: int| 0 <= m < k ==> d.registered(input_key(*actor, #[trigger] batch@[m]))
                && d.registered_digest(input_key(*actor, batch@[m])) == text_digest(batch@[m].value@),
            forall|m: int| k <= m < batch@.len() ==> (d.registered(input_key(*actor, #[trigger] batch@[m])) <==> start.registered(input_key(*actor, batch@[m])))
                && (start.registered(input_key(*actor, batch@[m])) ==> d.registered_digest(input_key(*actor, batch@[m])) == start.registered_digest(input_key(*actor, batch@[m]))),
            forall|key| #[trigger] d.registered(key) ==> start.registered(key)
                || exists|m: int| 0 <= m < k && input_key(*actor, batch@[m]) == key,
            d.runs == start.runs && d.operations == start.operations && d.logs == start.logs && d.agents == start.agents,
            d.tools == start.tools && d.policies == start.policies && d.submissions == start.submissions,
            d.inputs == start.inputs && d.model_budgets == start.model_budgets && d.schedule_requests == start.schedule_requests,
            d.team_tasks == start.team_tasks && d.memories == start.memories && d.memory_bindings == start.memory_bindings,
            d.api_tokens == start.api_tokens,
        decreases batch@.len() - k,
    {
        let e = &batch[k];
        if d.find_registered(actor, &e.kind, &e.reference).is_none() {
            let entry = RegistryEntry {
                workspace: actor.workspace_id.clone(),
                actor_id: actor.id.clone(),
                kind: e.kind.clone(),
                reference: e.reference.version_ref(),
                receipt: DefinitionReceipt {
                    reference: Reference { id: e.reference.id.clone(), version: e.reference.version },
                    digest: digests[k].clone(),
                    created_at: now(),
                },
                value: e.value.clone(),
            };
            let ghost before = *d;
            let ghost key = input_key(*actor, batch@[k as int]);
            d.customer_registry.push(entry);
            proof {
                let n = before.customer_registry@.len() as int;
                assert(entry_key(d.customer_registry@[n]) == key);
                assert(d.registered(key));
                assert(d.registry_index(key) == n);
                assert(d.customer_registry@.subrange(0, start.customer_registry@.len() as int)
                    =~= before.customer_registry@.subrange(0, start.customer_registry@.len() as int));
                assert forall|key2| #[trigger] d.registered(key2) && key2 != key implies before.registered(key2)
                    && before.registry_index(key2) == d.registry_index(key2) by {
                    let i = d.registry_index(key2);
                    assert(i < n);
                    assert(before.customer_registry@[i] == d.customer_registry@[i]);
                }
                assert forall|key2| #[trigger] before.registered(key2) implies d.registered(key2) by {
                    let i = before.registry_index(key2);
                    assert(d.customer_registry@[i] == before.customer_registry@[i]);
                }
                assert forall|m: int| k < m < batch@.len() implies (d.registered(input_key(*actor, #[trigger] batch@[m])) <==> start.registered(input_key(*actor, batch@[m]))) by {
                    assert(input_key(*actor, batch@[m]) != key);
                }
            }
        }
        k = k + 1;
    }
    Ok(())
}

/// `batch` installs the catalog's models, then its connections, each with
/// the JSON text the host serialised it to.
pub open spec fn catalog_batch(c: HostCatalog, model_texts: Seq<String>, connection_texts: Seq<String>, batch: Seq<RegistryInput>) -> bool {
    let m = c.models@.len();
    &&& batch.len() == m + c.connections@.len()
    &&& forall|i: int| 0 <= i < m ==> {
        &&& (#[trigger] batch[i]).kind@ == "model"@
        &&& batch[i].reference.same(c.models@[i].reference)
        &&& batch[i].value@ == model_texts[i]@
    }
    &&& forall|i: int| 0 <= i < c.connections@.len() ==> {
        &&& (#[trigger] batch[m + i]).kind@ == "connection"@
        &&& batch[m + i].reference.same(c.connections@[i].reference)
        &&& batch[m + i].value@ == connection_texts[i]@
    }
}

/// Every model and connection reference of the catalog is valid.
pub open spec fn catalog_references_valid(c: HostCatalog) -> bool {
    &&& forall|i: int| 0 <= i < c.models@.len() ==> (#[trigger] c.models@[i]).reference.valid()
    &&& forall|i: int| 0 <= i < c.connections@.len() ==> (#[trigger] c.connections@[i]).reference.valid()
}

fn input_of(kind: &str, reference: &Reference, value: &String) -> (r: RegistryInput)
    ensures
        r.kind@ == kind@,
        r.reference.same(*reference),
        r.value@ == value@,
{
    RegistryInput { kind: text(kind), reference: copy_reference(reference), value: value.clone() }
}

impl HostCatalog {
    /// Install the catalog's capability versions for its owner in one
    /// transaction: every model, then every connection, each recorded with
    /// the JSON text the host serialised it to (`model_texts` and
    /// `connection_texts`, in the catalog's order). Only the owner may
    /// install; the catalog's bounds and every reference must be valid; an
    /// installed version is immutable. The host validates each capability's
    /// endpoint and credentials by building its adapters before calling this.
    #[verifier::rlimit(40)]
    pub fn install(&self, d: &mut Data, actor: &Actor, model_texts: &Vec<String>, connection_texts: &Vec<String>) -> (r: Result<()>)
        requires
            old(d).wf(),
            model_texts@.len() == self.models@.len(),
            connection_texts@.len() == self.connections@.len(),
        ensures
            final(d).wf(),
            r is Err ==> *final(d) == *old(d),
            !self.authorizes(*actor) ==> r == Err::<(), Error>(Error::Denied),
            self.authorizes(*actor) && !self.bounds_valid() ==> (r matches Err(Error::Invalid(_))),
            self.authorizes(*actor) && self.bounds_valid() && !catalog_references_valid(*self) ==> (r matches Err(Error::Invalid(_))),
            self.authorizes(*actor) && self.bounds_valid() && catalog_references_valid(*self) ==> exists|batch: Seq<RegistryInput>| {
                &&& catalog_batch(*self, model_texts@, connection_texts@, batch)
                &&& (r is Ok <==> installable(*old(d), *actor, batch))
                &&& r is Err ==> (r matches Err(Error::Invalid(_)) || r matches Err(Error::Conflict(_)))
            },
            r is Ok ==> {
                &&& self.authorizes(*actor) && self.bounds_valid() && catalog_references_valid(*self)
                &&& forall|i: int| 0 <= i < self.models@.len() ==> {
                    let key = (actor.workspace_id@, actor.id@, "model"@, (#[trigger] self.models@[i]).reference.id@, self.models@[i].reference.version);
                    final(d).registered(key) && final(d).registered_digest(key) == text_digest(model_texts@[i]@)
                }
                &&& forall|i: int| 0 <= i < self.connections@.len() ==> {
                    let key = (actor.workspace_id@, actor.id@, "connection"@, (#[trigger] self.connections@[i]).reference.id@, self.connections@[i].reference.version);
                    final(d).registered(key) && final(d).registered_digest(key) == text_digest(connection_texts@[i]@)
                }
                &&& final(d).customer_registry@.subrange(0, old(d).customer_registry@.len() as int) == old(d).customer_registry@
            },
    {
        self.authorize(actor)?;
        self.check_bounds()?;
        let mut batch: Vec<RegistryInput> = Vec::new();
        let mut i: usize = 0;
        while i < self.models.len()
            invariant
                self.authorizes(*actor),
                self.bounds_valid(),
                *d == *old(d),
                d.wf(),
                i <= self.models@.len(),
                model_texts@.len() == self.models@.len(),
                batch@.len() == i,
                forall|k: int| 0 <= k < i ==> (#[trigger] self.models@[k]).reference.valid(),
                forall|k: int| 0 <= k < i ==> {
                    &&& (#[trigger] batch@[k]).kind@ == "model"@
                    &&& batch@[k].reference.same(self.models@[k].reference)
                    &&& batch@[k].value@ == model_texts@[k]@
                },
            decreases self.models@.len() - i,
        {
            self.models[i].reference.validate()?;
            batch.push(input_of("model", &self.models[i].reference, &model_texts[i]));
            i = i + 1;
        }
        let m = self.models.len();
        let mut j: usize = 0;
        while j < self.connections.len()
            invariant
                self.authorizes(*actor),
                self.bounds_valid(),
                *d == *old(d),
                d.wf(),
                j <= self.connections@.len(),
                m == self.models@.len(),
                connection_texts@.len() == self.connections@.len(),
                model_texts@.len() == self.models@.len(),
                batch@.len() == m + j,
                forall|k: int| 0 <= k < m ==> (#[trigger] self.models@[k]).reference.valid(),
                forall|k: int| 0 <= k < j ==> (#[trigger] self.connections@[k]).reference.valid(),
                forall|k: int| 0 <= k < m ==> {
                    &&& (#[trigger] batch@[k]).kind@ == "model"@
                    &&& batch@[k].reference.same(self.models@[k].reference)
                    &&& batch@[k].value@ == model_texts@[k]@
                },
                forall|k: int| 0 <= k < j ==> {
                    &&& (#[trigger] batch@[m + k]).kind@ == "connection"@
                    &&& batch@[m + k].reference.same(self.connections@[k].reference)
                    &&& batch@[m + k].value@ == connection_texts@[k]@
                },
            decreases self.connections@.len() - j,
        {
            self.connections[j].reference.validate()?;
            let ghost before = batch@;
            batch.push(input_of("connection", &self.connections[j].reference, &connection_texts[j]));
            proof {
                assert forall|k: int| 0 <= k < m implies (#[trigger] batch@[k]) == before[k] by {}
                assert forall|k: int| 0 <= k < j implies (#[trigger] batch@[m + k]) == before[m + k] by {}
            }
            j = j + 1;
        }
        proof {
            assert(catalog_batch(*self, model_texts@, connection_texts@, batch@));
            assert forall|k: int| 0 <= k < self.models@.len() implies
                input_key(*actor, #[trigger] batch@[k]) == (actor.workspace_id@, actor.id@, "model"@, self.models@[k].reference.id@, self.models@[k].reference.version) by {}
            assert forall|k: int| 0 <= k < self.connections@.len() implies
                input_key(*actor, #[trigger] batch@[m + k]) == (actor.workspace_id@, actor.id@, "connection"@, self.connections@[k].reference.id@, self.connections@[k].reference.version) by {}
        }
        let ghost b = batch@;
        let r = install_entries(d, actor, &batch);
        proof {
            assert(catalog_batch(*self, model_texts@, connection_texts@, b));
            if r is Ok {
                assert forall|i: int| 0 <= i < self.models@.len() implies {
                    let key = (actor.workspace_id@, actor.id@, "model"@, (#[trigger] self.models@[i]).reference.id@, self.models@[i].reference.version);
                    final(d).registered(key) && final(d).registered_digest(key) == text_digest(model_texts@[i]@)
                } by {
                    assert(input_key(*actor, batch@[i]) == (actor.workspace_id@, actor.id@, "model"@, self.models@[i].reference.id@, self.models@[i].reference.version));
                }
                assert forall|i: int| 0 <= i < self.connections@.len() implies {
                    let key = (actor.workspace_id@, actor.id@, "connection"@, (#[trigger] self.connections@[i]).reference.id@, self.connections@[i].reference.version);
                    final(d).registered(key) && final(d).registered_digest(key) == text_digest(connection_texts@[i]@)
                } by {
                    assert(input_key(*actor, batch@[m + i]) == (actor.workspace_id@, actor.id@, "connection"@, self.connections@[i].reference.id@, self.connections@[i].reference.version));
                }
            }
        }
        r
    }
}

/// Installed capability versions are immutable: a batch that names an
/// installed version with a changed definition cannot be installed.
pub proof fn law_installed_versions_are_immutable(d: Data, actor: Actor, batch: Seq<RegistryInput>, k: int)
    requires
        0 <= k < batch.len(),
        d.registered(input_key(actor, batch[k])),
        d.registered_digest(input_key(actor, batch[k])) != text_digest(batch[k].value@),
    ensures
        !installable(d, actor, batch),
{
}

} // verus!

verus! {

/// A customer's tool definition: it names an installed connection and may
/// only narrow that connection's effect and approval floors. Schemas are JSON
/// text.
#[derive(Debug, PartialEq, Eq)]
pub struct ToolDefinition {
    pub name: String,
    pub version: u32,
    pub description: String,
    pub connection: Reference,
    pub input_schema: String,
    pub output_schema: Option<String>,
    pub effect: Option<Effect>,
    pub require_approval: Option<bool>,
}

impl ToolDefinition {
    pub fn reference(&self) -> (r: Reference)
        ensures
            r.id@ == self.name@,
            r.version == self.version,
    {
        Reference { id: self.name.clone(), version: self.version }
    }
}

/// Where a compiled tool runs.
pub enum EffectiveTransport {
    Http { endpoint: String, token_env: Option<String>, output_schema: Option<String> },
    Mcp { endpoint: String, bearer_env: Option<String>, remote_name: String },
}

/// A customer tool compiled against its connection: what the runtime
/// executes, with the effect and approval it will be held to.
pub struct EffectiveTool {
    pub name: String,
    pub description: String,
    pub input_schema: String,
    pub effect: Effect,
    pub require_approval: bool,
    pub transport: EffectiveTransport,
}

/// The tool definition is well formed: a valid reference, a description of
/// 1 to 4096 bytes, and usable schemas.
pub open spec fn definition_valid(t: ToolDefinition) -> bool {
    &&& name_valid(t.name@) && t.version > 0
    &&& !blank(t.description@) && utf8_len(t.description@) <= 4096
    &&& crate::definitions::schema_valid(t.input_schema@)
    &&& t.output_schema matches Some(s) ==> crate::definitions::schema_valid(s@)
}

/// `e` is what `tool` compiles to on connection `c`: the tool's name,
/// description and input schema, the effect and approval that the policy
/// gives, and the connection's transport.
pub open spec fn compiled(c: ToolConnection, tool: ToolDefinition, e: EffectiveTool) -> bool {
    &&& e.name@ == tool.name@ && e.description@ == tool.description@ && e.input_schema@ == tool.input_schema@
    &&& tool_policy(c.effect, c.require_approval, tool.effect, tool.require_approval) == Some((e.effect, e.require_approval))
    &&& match (c.transport, e.transport) {
        (ConnectionTransport::Http { endpoint, token_env }, EffectiveTransport::Http { endpoint: e2, token_env: t2, output_schema: o2 }) =>
            e2@ == endpoint@ && t2 == token_env && o2 == tool.output_schema,
        (ConnectionTransport::Mcp { endpoint, bearer_env, remote_name }, EffectiveTransport::Mcp { endpoint: e2, bearer_env: b2, remote_name: n2 }) =>
            e2@ == endpoint@ && b2 == bearer_env && n2@ == remote_name@,
        _ => false,
    }
}

impl ToolConnection {
    /// Compile a customer tool on this connection. Its effect and approval
    /// are its own choices where it makes them, the connection's otherwise,
    /// and can never weaken the connection's floors. An MCP connection takes
    /// no output schema.
    pub fn compile(&self, tool: &ToolDefinition) -> (r: Result<EffectiveTool>)
        ensures
            !definition_valid(*tool) ==> (r matches Err(Error::Invalid(_))),
            definition_valid(*tool) && tool_policy(self.effect, self.require_approval, tool.effect, tool.require_approval) is None
                ==> r == Err::<EffectiveTool, Error>(Error::Denied),
            definition_valid(*tool) && tool_policy(self.effect, self.require_approval, tool.effect, tool.require_approval) is Some
                && self.transport is Mcp && tool.output_schema is Some ==> (r matches Err(Error::Unsupported(_))),
            r is Ok <==> definition_valid(*tool) && tool_policy(self.effect, self.require_approval, tool.effect, tool.require_approval) is Some
                && !(self.transport is Mcp && tool.output_schema is Some),
            r matches Ok(e) ==> compiled(*self, *tool, e),
    {
        tool.reference().validate()?;
        if is_blank(tool.description.as_str()) || crate::text::byte_length(&tool.description) > 4096 {
            return Err(invalid("tool description requires 1 to 4096 bytes"));
        }
        crate::definitions::validate_schema(tool.input_schema.as_str())?;
        match &tool.output_schema {
            Some(s) => crate::definitions::validate_schema(s.as_str())?,
            None => {},
        }
        let (effect, approval) = effective_policy(self, tool.effect, tool.require_approval)?;
        let transport = match &self.transport {
            ConnectionTransport::Http { endpoint, token_env } => EffectiveTransport::Http {
                endpoint: endpoint.clone(),
                token_env: match token_env { Some(t) => Some(t.clone()), None => None },
                output_schema: match &tool.output_schema { Some(s) => Some(s.clone()), None => None },
            },
            ConnectionTransport::Mcp { endpoint, bearer_env, remote_name } => {
                if tool.output_schema.is_some() {
                    return Err(crate::error::unsupported("MCP output schemas are not supported by this adapter"));
                }
                EffectiveTransport::Mcp {
                    endpoint: endpoint.clone(),
                    bearer_env: match bearer_env { Some(b) => Some(b.clone()), None => None },
                    remote_name: remote_name.clone(),
                }
            },
        };
        Ok(EffectiveTool {
            name: tool.name.clone(),
            description: tool.description.clone(),
            input_schema: tool.input_schema.clone(),
            effect,
            require_approval: approval,
            transport,
        })
    }
}


pub open spec fn effect_json(e: Effect) -> Seq<char> {
    match e {
        Effect::Read => "\"read\""@,
        Effect::Write => "\"write\""@,
    }
}

pub open spec fn optional_effect_json(e: Option<Effect>) -> Seq<char> {
    match e {
        Some(x) => effect_json(x),
        None => "null"@,
    }
}

pub open spec fn bool_json(b: bool) -> Seq<char> {
    if b { "true"@ } else { "false"@ }
}

pub open spec fn optional_bool_json(b: Option<bool>) -> Seq<char> {
    match b {
        Some(x) => bool_json(x),
        None => "null"@,
    }
}

/// An optional name as a JSON string or `null`.
pub open spec fn optional_string_json(o: Option<String>) -> Seq<char> {
    match o {
        Some(s) => json_string(s@),
        None => "null"@,
    }
}

/// An optional JSON text itself, or `null`.
pub open spec fn optional_raw_json(o: Option<String>) -> Seq<char> {
    match o {
        Some(s) => s@,
        None => "null"@,
    }
}

pub open spec fn reference_json(r: Reference) -> Seq<char> {
    "{\"id\":"@ + json_string(r.id@) + ",\"version\":"@ + decimal(r.version as nat) + "}"@
}

/// The JSON text of a customer's tool definition, members in key order.
pub open spec fn definition_json(t: ToolDefinition) -> Seq<char> {
    "{\"connection\":"@ + reference_json(t.connection) + ",\"description\":"@ + json_string(t.description@)
        + ",\"effect\":"@ + optional_effect_json(t.effect) + ",\"input_schema\":"@ + t.input_schema@
        + ",\"name\":"@ + json_string(t.name@) + ",\"output_schema\":"@ + optional_raw_json(t.output_schema)
        + ",\"require_approval\":"@ + optional_bool_json(t.require_approval) + ",\"version\":"@
        + decimal(t.version as nat) + "}"@
}

/// The JSON text of a compiled tool, as the adapter configuration it
/// becomes, members in key order.
pub open spec fn effective_json(e: EffectiveTool) -> Seq<char> {
    match e.transport {
        EffectiveTransport::Http { endpoint, token_env, output_schema } =>
            "{\"http\":{\"description\":"@ + json_string(e.description@) + ",\"effect\":"@ + effect_json(e.effect)
                + ",\"endpoint\":"@ + json_string(endpoint@) + ",\"input_schema\":"@ + e.input_schema@
                + ",\"name\":"@ + json_string(e.name@) + ",\"output_schema\":"@ + optional_raw_json(output_schema)
                + ",\"require_approval\":"@ + bool_json(e.require_approval) + ",\"token_env\":"@
                + optional_string_json(token_env) + "}}"@,
        EffectiveTransport::Mcp { endpoint, bearer_env, remote_name } =>
            "{\"mcp\":{\"bearer_env\":"@ + optional_string_json(bearer_env) + ",\"endpoint\":"@ + json_string(endpoint@)
                + ",\"tools\":[{\"description\":"@ + json_string(e.description@) + ",\"effect\":"@ + effect_json(e.effect)
                + ",\"input_schema\":"@ + e.input_schema@ + ",\"name\":"@ + json_string(e.name@)
                + ",\"remote_name\":"@ + json_string(remote_name@) + ",\"require_approval\":"@
                + bool_json(e.require_approval) + "}]}}"@,
    }
}

/// The digest a published tool version is known by: SHA-256 of the JSON
/// `{"definition": .., "effective": ..}`.
pub open spec fn tool_publication_digest(t: ToolDefinition, e: EffectiveTool) -> Seq<char> {
    text_digest("{\"definition\":"@ + definition_json(t) + ",\"effective\":"@ + effective_json(e) + "}"@)
}

fn put_effect(out: &mut String, e: Effect)
    ensures
        final(out)@ == old(out)@ + effect_json(e),
{
    match e {
        Effect::Read => put(out, "\"read\""),
        Effect::Write => put(out, "\"write\""),
    }
}

fn put_bool(out: &mut String, b: bool)
    ensures
        final(out)@ == old(out)@ + bool_json(b),
{
    if b {
        put(out, "true");
    } else {
        put(out, "false");
    }
}

fn put_optional_string(out: &mut String, o: &Option<String>)
    ensures
        final(out)@ == old(out)@ + optional_string_json(*o),
{
    match o {
        Some(s) => put_quoted(out, s.as_str()),
        None => put(out, "null"),
    }
}

fn put_optional_raw(out: &mut String, o: &Option<String>)
    ensures
        final(out)@ == old(out)@ + optional_raw_json(*o),
{
    match o {
        Some(s) => put(out, s.as_str()),
        None => put(out, "null"),
    }
}

fn put_optional_effect(out: &mut String, e: Option<Effect>)
    ensures
        final(out)@ == old(out)@ + optional_effect_json(e),
{
    match e {
        Some(x) => put_effect(out, x),
        None => put(out, "null"),
    }
}

fn put_optional_bool(out: &mut String, b: Option<bool>)
    ensures
        final(out)@ == old(out)@ + optional_bool_json(b),
{
    match b {
        Some(x) => put_bool(out, x),
        None => put(out, "null"),
    }
}

fn reference_text(r: &Reference) -> (t: String)
    ensures
        t@ == reference_json(*r),
{
    let mut out = text("{\"id\":");
    put_quoted(&mut out, r.id.as_str());
    put(&mut out, ",\"version\":");
    put_decimal(&mut out, r.version as u64);
    put(&mut out, "}");
    out
}

fn definition_text(t: &ToolDefinition) -> (r: String)
    ensures
        r@ == definition_json(*t),
{
    let mut out = text("{\"connection\":");
    let c = reference_text(&t.connection);
    put(&mut out, c.as_str());
    put(&mut out, ",\"description\":");
    put_quoted(&mut out, t.description.as_str());
    put(&mut out, ",\"effect\":");
    put_optional_effect(&mut out, t.effect);
    put(&mut out, ",\"input_schema\":");
    put(&mut out, t.input_schema.as_str());
    put(&mut out, ",\"name\":");
    put_quoted(&mut out, t.name.as_str());
    put(&mut out, ",\"output_schema\":");
    put_optional_raw(&mut out, &t.output_schema);
    put(&mut out, ",\"require_approval\":");
    put_optional_bool(&mut out, t.require_approval);
    put(&mut out, ",\"version\":");
    put_decimal(&mut out, t.version as u64);
    put(&mut out, "}");
    out
}

fn effective_text(e: &EffectiveTool) -> (r: String)
    ensures
        r@ == effective_json(*e),
{
    match &e.transport {
        EffectiveTransport::Http { endpoint, token_env, output_schema } => {
            let mut out = text("{\"http\":{\"description\":");
            put_quoted(&mut out, e.description.as_str());
            put(&mut out, ",\"effect\":");
            put_effect(&mut out, e.effect);
            put(&mut out, ",\"endpoint\":");
            put_quoted(&mut out, endpoint.as_str());
            put(&mut out, ",\"input_schema\":");
            put(&mut out, e.input_schema.as_str());
            put(&mut out, ",\"name\":");
            put_quoted(&mut out, e.name.as_str());
            put(&mut out, ",\"output_schema\":");
            put_optional_raw(&mut out, output_schema);
            put(&mut out, ",\"require_approval\":");
            put_bool(&mut out, e.require_approval);
            put(&mut out, ",\"token_env\":");
            put_optional_string(&mut out, token_env);
            put(&mut out, "}}");
            out
        },
        EffectiveTransport::Mcp { endpoint, bearer_env, remote_name } => {
            let mut out = text("{\"mcp\":{\"bearer_env\":");
            put_optional_string(&mut out, bearer_env);
            put(&mut out, ",\"endpoint\":");
            put_quoted(&mut out, endpoint.as_str());
            put(&mut out, ",\"tools\":[{\"description\":");
            put_quoted(&mut out, e.description.as_str());
            put(&mut out, ",\"effect\":");
            put_effect(&mut out, e.effect);
            put(&mut out, ",\"input_schema\":");
            put(&mut out, e.input_schema.as_str());
            put(&mut out, ",\"name\":");
            put_quoted(&mut out, e.name.as_str());
            put(&mut out, ",\"remote_name\":");
            put_quoted(&mut out, remote_name.as_str());
            put(&mut out, ",\"require_approval\":");
            put_bool(&mut out, e.require_approval);
            put(&mut out, "}]}}");
            out
        },
    }
}

/// The digest of a tool version and what it compiled to.
pub fn tool_digest(t: &ToolDefinition, e: &EffectiveTool) -> (r: String)
    ensures
        r@ == tool_publication_digest(*t, *e),
{
    let mut out = text("{\"definition\":");
    let dt = definition_text(t);
    put(&mut out, dt.as_str());
    put(&mut out, ",\"effective\":");
    let et = effective_text(e);
    put(&mut out, et.as_str());
    put(&mut out, "}");
    digest_text(&out)
}


/// A customer's published tool version: its definition, what it compiled to
/// on the installed connection, and its receipt.
pub struct CustomerTool {
    pub workspace: String,
    pub actor_id: String,
    pub definition: ToolDefinition,
    pub effective: EffectiveTool,
    pub receipt: DefinitionReceipt,
}

/// A tool publication's request key and the receipt it was answered with.
pub struct ToolKey {
    pub workspace: String,
    pub actor_id: String,
    pub request_key: String,
    pub receipt: DefinitionReceipt,
}

/// A published tool is known by its owner and its definition's name and version.
pub open spec fn customer_tool_key(t: CustomerTool) -> (Seq<char>, Seq<char>, Seq<char>, u32) {
    (t.workspace@, t.actor_id@, t.definition.name@, t.definition.version)
}

pub open spec fn request_key_of(k: ToolKey) -> (Seq<char>, Seq<char>, Seq<char>) {
    (k.workspace@, k.actor_id@, k.request_key@)
}

pub open spec fn customer_tools_unique(p: Seq<CustomerTool>) -> bool {
    forall|i: int, j: int| 0 <= i < p.len() && 0 <= j < p.len() && i != j ==> customer_tool_key(p[i]) != customer_tool_key(p[j])
}

pub open spec fn tool_keys_unique(p: Seq<ToolKey>) -> bool {
    forall|i: int, j: int| 0 <= i < p.len() && 0 <= j < p.len() && i != j ==> request_key_of(p[i]) != request_key_of(p[j])
}

impl Data {
    pub open spec fn has_customer_tool(&self, key: (Seq<char>, Seq<char>, Seq<char>, u32)) -> bool {
        exists|i: int| 0 <= i < self.customer_tools@.len() && customer_tool_key(self.customer_tools@[i]) == key
    }

    pub open spec fn customer_tool_index(&self, key: (Seq<char>, Seq<char>, Seq<char>, u32)) -> int {
        choose|i: int| 0 <= i < self.customer_tools@.len() && customer_tool_key(self.customer_tools@[i]) == key
    }

    pub open spec fn customer_tool(&self, key: (Seq<char>, Seq<char>, Seq<char>, u32)) -> CustomerTool {
        self.customer_tools@[self.customer_tool_index(key)]
    }

    pub open spec fn has_tool_key(&self, key: (Seq<char>, Seq<char>, Seq<char>)) -> bool {
        exists|i: int| 0 <= i < self.customer_tool_keys@.len() && request_key_of(self.customer_tool_keys@[i]) == key
    }

    pub open spec fn tool_key_index(&self, key: (Seq<char>, Seq<char>, Seq<char>)) -> int {
        choose|i: int| 0 <= i < self.customer_tool_keys@.len() && request_key_of(self.customer_tool_keys@[i]) == key
    }

    /// The receipt a tool publication's request key was answered with.
    pub open spec fn tool_key_receipt(&self, key: (Seq<char>, Seq<char>, Seq<char>)) -> DefinitionReceipt {
        self.customer_tool_keys@[self.tool_key_index(key)].receipt
    }

    fn find_customer_tool(&self, actor: &Actor, name: &String, version: u32) -> (r: Option<usize>)
        requires
            self.wf(),
        ensures
            r is Some <==> self.has_customer_tool((actor.workspace_id@, actor.id@, name@, version)),
            r matches Some(i) ==> i == self.customer_tool_index((actor.workspace_id@, actor.id@, name@, version))
                && i < self.customer_tools@.len(),
    {
        let ghost key = (actor.workspace_id@, actor.id@, name@, version);
        let mut i: usize = 0;
        while i < self.customer_tools.len()
            invariant
                self.wf(),
                key == (actor.workspace_id@, actor.id@, name@, version),
                i <= self.customer_tools@.len(),
                forall|k: int| 0 <= k < i ==> customer_tool_key(self.customer_tools@[k]) != key,
            decreases self.customer_tools@.len() - i,
        {
            let t = &self.customer_tools[i];
            if t.workspace == actor.workspace_id && t.actor_id == actor.id && t.definition.name == *name
                && t.definition.version == version {
                assert(customer_tool_key(self.customer_tools@[i as int]) == key);
                assert(self.has_customer_tool(key));
                let ghost j = self.customer_tool_index(key);
                assert(j == i);
                return Some(i);
            }
            i = i + 1;
        }
        None
    }

    fn find_tool_key(&self, actor: &Actor, request_key: &String) -> (r: Option<usize>)
        requires
            self.wf(),
        ensures
            r is Some <==> self.has_tool_key((actor.workspace_id@, actor.id@, request_key@)),
            r matches Some(i) ==> i == self.tool_key_index((actor.workspace_id@, actor.id@, request_key@))
                && i < self.customer_tool_keys@.len(),
    {
        let ghost key = (actor.workspace_id@, actor.id@, request_key@);
        let mut i: usize = 0;
        while i < self.customer_tool_keys.len()
            invariant
                self.wf(),
                key == (actor.workspace_id@, actor.id@, request_key@),
                i <= self.customer_tool_keys@.len(),
                forall|k: int| 0 <= k < i ==> request_key_of(self.customer_tool_keys@[k]) != key,
            decreases self.customer_tool_keys@.len() - i,
        {
            let k = &self.customer_tool_keys[i];
            if k.workspace == actor.workspace_id && k.actor_id == actor.id && k.request_key == *request_key {
                assert(request_key_of(self.customer_tool_keys@[i as int]) == key);
                assert(self.has_tool_key(key));
                let ghost j = self.tool_key_index(key);
                assert(j == i);
                return Some(i);
            }
            i = i + 1;
        }
        None
    }
}


pub open spec fn optional_view(o: Option<String>) -> Option<Seq<char>> {
    match o {
        Some(s) => Some(s@),
        None => None,
    }
}

/// Two tool definitions say the same thing.
pub open spec fn same_definition(a: ToolDefinition, b: ToolDefinition) -> bool {
    &&& a.name@ == b.name@ && a.version == b.version && a.description@ == b.description@
    &&& a.connection.same(b.connection)
    &&& a.input_schema@ == b.input_schema@ && optional_view(a.output_schema) == optional_view(b.output_schema)
    &&& a.effect == b.effect && a.require_approval == b.require_approval
}

fn same_text(a: &Option<String>, b: &Option<String>) -> (r: bool)
    ensures
        r == (optional_view(*a) == optional_view(*b)),
{
    match (a, b) {
        (Some(x), Some(y)) => *x == *y,
        (None, None) => true,
        _ => false,
    }
}

fn same_tool_definition(a: &ToolDefinition, b: &ToolDefinition) -> (r: bool)
    ensures
        r == same_definition(*a, *b),
{
    let effects = match (a.effect, b.effect) {
        (Some(Effect::Read), Some(Effect::Read)) | (Some(Effect::Write), Some(Effect::Write)) | (None, None) => true,
        _ => false,
    };
    let approvals = match (a.require_approval, b.require_approval) {
        (Some(x), Some(y)) => x == y,
        (None, None) => true,
        _ => false,
    };
    a.name == b.name && a.version == b.version && a.description == b.description && a.connection.id == b.connection.id
        && a.connection.version == b.connection.version && a.input_schema == b.input_schema
        && same_text(&a.output_schema, &b.output_schema) && effects && approvals
}

fn copy_definition_receipt(r: &DefinitionReceipt) -> (c: DefinitionReceipt)
    ensures
        c == *r,
{
    DefinitionReceipt { reference: Reference { id: r.reference.id.clone(), version: r.reference.version }, digest: r.digest.clone(), created_at: r.created_at }
}

fn copy_optional_text(o: &Option<String>) -> (c: Option<String>)
    ensures
        c == *o,
{
    match o {
        Some(s) => Some(s.clone()),
        None => None,
    }
}

fn copy_definition(t: &ToolDefinition) -> (c: ToolDefinition)
    ensures
        c == *t,
{
    ToolDefinition {
        name: t.name.clone(),
        version: t.version,
        description: t.description.clone(),
        connection: Reference { id: t.connection.id.clone(), version: t.connection.version },
        input_schema: t.input_schema.clone(),
        output_schema: copy_optional_text(&t.output_schema),
        effect: t.effect,
        require_approval: t.require_approval,
    }
}

/// The catalog has a connection with this reference.
pub open spec fn has_connection(cs: Seq<ToolConnection>, r: Reference) -> bool {
    exists|i: int| 0 <= i < cs.len() && cs[i].reference.same(r)
}

/// The position of the first connection with this reference.
pub open spec fn connection_index(cs: Seq<ToolConnection>, r: Reference) -> int {
    choose|i: int| 0 <= i < cs.len() && cs[i].reference.same(r) && forall|j: int| 0 <= j < i ==> !(#[trigger] cs[j]).reference.same(r)
}

fn find_connection(catalog: &HostCatalog, r: &Reference) -> (res: Option<usize>)
    ensures
        res is Some <==> has_connection(catalog.connections@, *r),
        res matches Some(i) ==> i == connection_index(catalog.connections@, *r) && i < catalog.connections@.len(),
{
    let mut i: usize = 0;
    while i < catalog.connections.len()
        invariant
            i <= catalog.connections@.len(),
            forall|j: int| 0 <= j < i ==> !(#[trigger] catalog.connections@[j]).reference.same(*r),
        decreases catalog.connections@.len() - i,
    {
        let c = &catalog.connections[i];
        if c.reference.id == r.id && c.reference.version == r.version {
            proof {
                let k = connection_index(catalog.connections@, *r);
                assert(catalog.connections@[i as int].reference.same(*r));
                assert(k == i as int) by {
                    if k < i {
                    } else if k > i {
                        assert(!catalog.connections@[i as int].reference.same(*r));
                    }
                }
            }
            return Some(i);
        }
        i = i + 1;
    }
    None
}

/// The JSON text of the capability installed under a registry key.
pub open spec fn installed_value(d: Data, key: (Seq<char>, Seq<char>, Seq<char>, Seq<char>, u32)) -> Seq<char> {
    d.customer_registry@[d.registry_index(key)].value@
}

/// What a tool compiles to is fixed up to its text: two compilations on one
/// connection have one digest.
proof fn lemma_compiled_digest(c: ToolConnection, t: ToolDefinition, e1: EffectiveTool, e2: EffectiveTool)
    requires
        compiled(c, t, e1),
        compiled(c, t, e2),
    ensures
        tool_publication_digest(t, e1) == tool_publication_digest(t, e2),
{
    assert(effective_json(e1) == effective_json(e2));
}

/// Only the published tools and their request keys differ.
pub open spec fn only_customer_tools_changed(old: Data, new: Data) -> bool {
    new == (Data { customer_tools: new.customer_tools, customer_tool_keys: new.customer_tool_keys, ..old })
}

/// A publication request that passes the first checks: the catalog's owner,
/// a request key of 1 to 256 bytes, and a valid tool name and version.
pub open spec fn tool_request_ok(catalog: HostCatalog, actor: Actor, key: Seq<char>, tool: ToolDefinition) -> bool {
    &&& catalog.authorizes(actor)
    &&& 1 <= utf8_len(key) <= 256
    &&& name_valid(tool.name@) && tool.version > 0
}

/// The published tool a request addresses: the one its request key was
/// first answered with, or else the tool's own name and version.
pub open spec fn tool_target(d: Data, actor: Actor, key: Seq<char>, tool: ToolDefinition) -> (Seq<char>, Seq<char>, Seq<char>, u32) {
    let kk = (actor.workspace_id@, actor.id@, key);
    if d.has_tool_key(kk) {
        let r = d.tool_key_receipt(kk).reference;
        (actor.workspace_id@, actor.id@, r.id@, r.version)
    } else {
        (actor.workspace_id@, actor.id@, tool.name@, tool.version)
    }
}

/// Publish a customer's tool version on one of the catalog's installed
/// connections. `connection_text` is the JSON text of that catalog
/// connection as the host serialises it; it must be what was installed.
/// A repeated request (same key, or same version) with the same definition
/// returns the first receipt; a published version is immutable; the tool may
/// not weaken the connection's effect or approval floors.
#[verifier::rlimit(60)]
pub fn publish_customer_tool(
    d: &mut Data,
    actor: &Actor,
    catalog: &HostCatalog,
    tool: ToolDefinition,
    request_key: &str,
    connection_text: &String,
) -> (r: Result<DefinitionReceipt>)
    requires
        old(d).wf(),
    ensures
        final(d).wf(),
        r is Err ==> *final(d) == *old(d),
        !catalog.authorizes(*actor) ==> r == Err::<DefinitionReceipt, Error>(Error::Denied),
        catalog.authorizes(*actor) && !(1 <= utf8_len(request_key@) <= 256) ==> (r matches Err(Error::Invalid(_))),
        catalog.authorizes(*actor) && 1 <= utf8_len(request_key@) <= 256 && !(name_valid(tool.name@) && tool.version > 0)
            ==> (r matches Err(Error::Invalid(_))),
        tool_request_ok(*catalog, *actor, request_key@, tool) ==> {
            let kk = (actor.workspace_id@, actor.id@, request_key@);
            let target = tool_target(*old(d), *actor, request_key@, tool);
            &&& old(d).has_customer_tool(target) ==> {
                let rec = old(d).customer_tool(target);
                &&& !same_definition(rec.definition, tool) ==> (r matches Err(Error::Conflict(_)))
                &&& same_definition(rec.definition, tool) ==> {
                    &&& r == Ok::<DefinitionReceipt, Error>(rec.receipt)
                    &&& only_customer_tools_changed(*old(d), *final(d))
                    &&& final(d).customer_tools == old(d).customer_tools
                    &&& final(d).has_tool_key(kk) && final(d).tool_key_receipt(kk) == rec.receipt
                }
            }
            &&& !old(d).has_customer_tool(target) ==> {
                let ckey = (actor.workspace_id@, actor.id@, "connection"@, tool.connection.id@, tool.connection.version);
                let c = catalog.connections@[connection_index(catalog.connections@, tool.connection)];
                &&& !has_connection(catalog.connections@, tool.connection) ==> r == Err::<DefinitionReceipt, Error>(Error::NotFound)
                &&& has_connection(catalog.connections@, tool.connection) && !old(d).registered(ckey)
                    ==> r == Err::<DefinitionReceipt, Error>(Error::NotFound)
                &&& has_connection(catalog.connections@, tool.connection) && old(d).registered(ckey)
                    && installed_value(*old(d), ckey) != connection_text@ ==> (r matches Err(Error::Conflict(_)))
                &&& has_connection(catalog.connections@, tool.connection) && old(d).registered(ckey)
                    && installed_value(*old(d), ckey) == connection_text@ ==> {
                    &&& !definition_valid(tool) ==> (r matches Err(Error::Invalid(_)))
                    &&& definition_valid(tool) && tool_policy(c.effect, c.require_approval, tool.effect, tool.require_approval) is None
                        ==> r == Err::<DefinitionReceipt, Error>(Error::Denied)
                    &&& definition_valid(tool) && tool_policy(c.effect, c.require_approval, tool.effect, tool.require_approval) is Some
                        && c.transport is Mcp && tool.output_schema is Some ==> (r matches Err(Error::Unsupported(_)))
                    &&& forall|e: EffectiveTool| #[trigger] compiled(c, tool, e) && definition_valid(tool)
                        && !(c.transport is Mcp && tool.output_schema is Some) ==> {
                        &&& old(d).has_tool_key(kk) ==> {
                            let k = old(d).tool_key_receipt(kk);
                            &&& k.digest@ == tool_publication_digest(tool, e) ==> r == Ok::<DefinitionReceipt, Error>(k) && *final(d) == *old(d)
                            &&& k.digest@ != tool_publication_digest(tool, e) ==> (r matches Err(Error::Conflict(_)))
                        }
                        &&& !old(d).has_tool_key(kk) ==> (r matches Ok(receipt) && {
                            &&& receipt.reference.id@ == tool.name@ && receipt.reference.version == tool.version
                            &&& receipt.digest@ == tool_publication_digest(tool, e)
                            &&& only_customer_tools_changed(*old(d), *final(d))
                            &&& final(d).customer_tools@.drop_last() == old(d).customer_tools@
                            &&& final(d).customer_tools@.last().workspace@ == actor.workspace_id@
                            &&& final(d).customer_tools@.last().actor_id@ == actor.id@
                            &&& final(d).customer_tools@.last().definition == tool
                            &&& compiled(c, tool, final(d).customer_tools@.last().effective)
                            &&& final(d).customer_tools@.last().receipt == receipt
                            &&& final(d).has_tool_key(kk) && final(d).tool_key_receipt(kk) == receipt
                        })
                    }
                }
            }
        },
{
    catalog.authorize(actor)?;
    let key = text(request_key);
    let n = crate::text::byte_length(&key);
    if n == 0 || n > 256 {
        return Err(invalid("publication request key length"));
    }
    tool.reference().validate()?;
    let ghost kk = (actor.workspace_id@, actor.id@, request_key@);
    let ki = d.find_tool_key(actor, &key);
    let (rid, rver) = match ki {
        Some(i) => (d.customer_tool_keys[i].receipt.reference.id.clone(), d.customer_tool_keys[i].receipt.reference.version),
        None => (tool.name.clone(), tool.version),
    };
    proof {
        assert((actor.workspace_id@, actor.id@, rid@, rver) == tool_target(*old(d), *actor, request_key@, tool));
    }
    if let Some(j) = d.find_customer_tool(actor, &rid, rver) {
        if !same_tool_definition(&d.customer_tools[j].definition, &tool) {
            return Err(conflict("tool revision or retry key is immutable"));
        }
        let receipt = copy_definition_receipt(&d.customer_tools[j].receipt);
        if ki.is_none() {
            let ghost before = d.customer_tool_keys@;
            d.customer_tool_keys.push(ToolKey {
                workspace: actor.workspace_id.clone(),
                actor_id: actor.id.clone(),
                request_key: key,
                receipt: copy_definition_receipt(&receipt),
            });
            proof {
                let n = before.len() as int;
                assert(request_key_of(d.customer_tool_keys@[n]) == kk);
                assert(d.has_tool_key(kk));
                assert forall|a: int, b: int| 0 <= a < d.customer_tool_keys@.len() && 0 <= b < d.customer_tool_keys@.len() && a != b
                    implies request_key_of(d.customer_tool_keys@[a]) != request_key_of(d.customer_tool_keys@[b]) by {
                    if a == n {
                        assert(request_key_of(before[b]) != kk);
                    } else if b == n {
                        assert(request_key_of(before[a]) != kk);
                    }
                }
                assert(d.tool_key_index(kk) == n);
                assert(*d == (Data { customer_tools: d.customer_tools, customer_tool_keys: d.customer_tool_keys, ..*old(d) }));
            }
        } else {
            let i = ki.unwrap();
            let ghost before = d.customer_tool_keys@;
            let entry = ToolKey {
                workspace: d.customer_tool_keys[i].workspace.clone(),
                actor_id: d.customer_tool_keys[i].actor_id.clone(),
                request_key: d.customer_tool_keys[i].request_key.clone(),
                receipt: copy_definition_receipt(&receipt),
            };
            d.customer_tool_keys.set(i, entry);
            proof {
                assert(request_key_of(d.customer_tool_keys@[i as int]) == kk);
                assert forall|a: int| 0 <= a < d.customer_tool_keys@.len() && a != i
                    implies #[trigger] d.customer_tool_keys@[a] == before[a] by {}
                assert(d.has_tool_key(kk));
                assert(d.tool_key_index(kk) == i);
                assert(*d == (Data { customer_tools: d.customer_tools, customer_tool_keys: d.customer_tool_keys, ..*old(d) }));
            }
        }
        return Ok(receipt);
    }
    let c = match find_connection(catalog, &tool.connection) {
        Some(c) => c,
        None => return Err(Error::NotFound),
    };
    let kind = text("connection");
    let installed = match d.find_registered(actor, &kind, &tool.connection) {
        Some(i) => i,
        None => return Err(Error::NotFound),
    };
    if d.customer_registry[installed].value != *connection_text {
        return Err(conflict("host connection is not installed"));
    }
    let effective = catalog.connections[c].compile(&tool)?;
    let digest = tool_digest(&tool, &effective);
    proof {
        assert forall|e: EffectiveTool| #[trigger] compiled(catalog.connections@[c as int], tool, e) implies
            tool_publication_digest(tool, e) == digest@ by {
            lemma_compiled_digest(catalog.connections@[c as int], tool, effective, e);
        }
    }
    match ki {
        Some(i) => {
            if d.customer_tool_keys[i].receipt.digest == digest {
                return Ok(copy_definition_receipt(&d.customer_tool_keys[i].receipt));
            }
            Err(conflict("tool publication key reused with changed content"))
        },
        None => {
            let receipt = DefinitionReceipt { reference: tool.reference(), digest, created_at: now() };
            let ghost tools_before = d.customer_tools@;
            let ghost keys_before = d.customer_tool_keys@;
            let ghost tkey = (actor.workspace_id@, actor.id@, tool.name@, tool.version);
            d.customer_tools.push(CustomerTool {
                workspace: actor.workspace_id.clone(),
                actor_id: actor.id.clone(),
                definition: tool,
                effective,
                receipt: copy_definition_receipt(&receipt),
            });
            d.customer_tool_keys.push(ToolKey {
                workspace: actor.workspace_id.clone(),
                actor_id: actor.id.clone(),
                request_key: key,
                receipt: copy_definition_receipt(&receipt),
            });
            proof {
                let n = tools_before.len() as int;
                assert(customer_tool_key(d.customer_tools@[n]) == tkey);
                assert forall|a: int, b: int| 0 <= a < d.customer_tools@.len() && 0 <= b < d.customer_tools@.len() && a != b
                    implies customer_tool_key(d.customer_tools@[a]) != customer_tool_key(d.customer_tools@[b]) by {
                    if a == n {
                        assert(customer_tool_key(tools_before[b]) != tkey);
                    } else if b == n {
                        assert(customer_tool_key(tools_before[a]) != tkey);
                    }
                }
                let m = keys_before.len() as int;
                assert(request_key_of(d.customer_tool_keys@[m]) == kk);
                assert(d.has_tool_key(kk));
                assert forall|a: int, b: int| 0 <= a < d.customer_tool_keys@.len() && 0 <= b < d.customer_tool_keys@.len() && a != b
                    implies request_key_of(d.customer_tool_keys@[a]) != request_key_of(d.customer_tool_keys@[b]) by {
                    if a == m {
                        assert(request_key_of(keys_before[b]) != kk);
                    } else if b == m {
                        assert(request_key_of(keys_before[a]) != kk);
                    }
                }
                assert(d.tool_key_index(kk) == m);
                assert(d.customer_tools@.drop_last() =~= tools_before);
                assert(*d == (Data { customer_tools: d.customer_tools, customer_tool_keys: d.customer_tool_keys, ..*old(d) }));
            }
            Ok(receipt)
        },
    }
}

/// A published tool version of the actor's, as it was published.
pub fn customer_tool(d: &Data, actor: &Actor, reference: &Reference) -> (r: Result<ToolDefinition>)
    requires
        d.wf(),
    ensures
        !d.has_customer_tool((actor.workspace_id@, actor.id@, reference.id@, reference.version))
            ==> r == Err::<ToolDefinition, Error>(Error::NotFound),
        d.has_customer_tool((actor.workspace_id@, actor.id@, reference.id@, reference.version))
            ==> r == Ok::<ToolDefinition, Error>(d.customer_tool((actor.workspace_id@, actor.id@, reference.id@, reference.version)).definition),
{
    match d.find_customer_tool(actor, &reference.id, reference.version) {
        Some(i) => Ok(copy_definition(&d.customer_tools[i].definition)),
        None => Err(Error::NotFound),
    }
}

} // verus!
