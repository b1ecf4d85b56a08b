//! Startup configuration of an agent tree: the validation of each agent's
//! contracts and of the tree's shape, made before anything starts. Building
//! executors from a valid configuration is the host's work.
use vstd::prelude::*;
use crate::coordination::CoordinationPolicy;
use crate::context::ContextPolicy;
use crate::definitions::schema_valid;
use crate::error::{invalid, text, Error, Result};
use crate::json::{digest_text, parse, parse_json, put, put_decimal, put_quoted, text_digest, Json};
use crate::memory::MemoryConfig;
use crate::models::{Actor, Agent, AgentTool, Effect, Execution, Goal, Limits, Tool, SCHEMA_VERSION};
use crate::primitives::{decimal, decimal_text, json_string};
use crate::store::Policy;
use crate::skills::{Skill, SkillPackage};
use crate::text::{blank, is_blank, utf8_len};

verus! {

/// The parts of a URL that endpoint rules look at.
pub struct UrlParts {
    pub scheme: String,
    pub host: Option<String>,
    pub has_username: bool,
    pub has_password: bool,
    pub has_query: bool,
    pub has_fragment: bool,
}

/// The parts of the URL that a text denotes (scheme, host, and whether it has
/// a user name, password, query and fragment), if the text is a URL.
pub uninterp spec fn url_parts(s: Seq<char>) -> Option<(Seq<char>, Option<Seq<char>>, bool, bool, bool, bool)>;

/// `reqwest::Url::parse`, converted to its parts: `scheme`, `host_str`,
/// whether `username` is non-empty, and whether `password`, `query` and
/// `fragment` are present.
#[verifier::external_body]
fn parse_url(s: &str) -> (r: Option<UrlParts>)
    ensures
        r is None <==> url_parts(s@) is None,
        r matches Some(p) ==> url_parts(s@) == Some((p.scheme@, match p.host { Some(h) => Some(h@), None => None },
            p.has_username, p.has_password, p.has_query, p.has_fragment)),
{
    match reqwest::Url::parse(s) {
        Ok(u) => Some(UrlParts {
            scheme: u.scheme().to_string(),
            host: u.host_str().map(|h| h.to_string()),
            has_username: !u.username().is_empty(),
            has_password: u.password().is_some(),
            has_query: u.query().is_some(),
            has_fragment: u.fragment().is_some(),
        }),
        Err(_) => None,
    }
}

/// HTTPS, or HTTP to the loopback host, without credentials, query or fragment.
pub open spec fn endpoint_allowed(s: Seq<char>) -> bool {
    match url_parts(s) {
        None => false,
        Some((scheme, host, user, password, query, fragment)) => {
            &&& scheme == "https"@ || (scheme == "http"@ && (host == Some("localhost"@) || host == Some("127.0.0.1"@) || host == Some("[::1]"@)))
            &&& !user && !password && !query && !fragment
        },
    }
}

pub fn check_endpoint(s: &str) -> (r: bool)
    ensures
        r == endpoint_allowed(s@),
{
    match parse_url(s) {
        None => false,
        Some(p) => {
            let local = match &p.host {
                Some(h) => crate::text::str_equal(h.as_str(), "localhost") || crate::text::str_equal(h.as_str(), "127.0.0.1")
                    || crate::text::str_equal(h.as_str(), "[::1]"),
                None => false,
            };
            (crate::text::str_equal(p.scheme.as_str(), "https") || (crate::text::str_equal(p.scheme.as_str(), "http") && local)) && !p.has_username && !p.has_password
                && !p.has_query && !p.has_fragment
        },
    }
}

/// A pinned MCP tool: the host chooses its schema and effect.
pub struct McpToolBinding {
    pub name: String,
    pub remote_name: String,
    pub description: String,
    pub input_schema: String,
    pub effect: Effect,
}

pub struct McpServerConfig {
    pub endpoint: String,
    pub bearer_env: Option<String>,
    pub timeout_seconds: u64,
    pub max_response_bytes: usize,
    pub tools: Vec<McpToolBinding>,
}

pub fn default_timeout() -> (r: u64)
    ensures
        r == 60,
{
    60
}

pub fn default_limit() -> (r: usize)
    ensures
        r == 1_048_576,
{
    1_048_576
}

pub open spec fn binding_name_char(c: char) -> bool {
    ('a' <= c <= 'z') || ('A' <= c <= 'Z') || ('0' <= c <= '9') || c == '_'
}

/// A binding: an ASCII name of at most 64 bytes, a remote name of at most
/// 128 bytes, a description of at most 8 KiB and an object schema.
pub open spec fn binding_valid(b: McpToolBinding) -> bool {
    &&& 1 <= b.name@.len() <= 64
    &&& forall|i: int| 0 <= i < b.name@.len() ==> binding_name_char(#[trigger] b.name@[i])
    &&& 1 <= utf8_len(b.remote_name@) <= 128
    &&& utf8_len(b.description@) <= 8192
    &&& parse_json(b.input_schema@) matches Some(Json::Object(_))
    &&& schema_valid(b.input_schema@)
}

pub open spec fn server_valid(c: McpServerConfig) -> bool {
    &&& endpoint_allowed(c.endpoint@)
    &&& 1 <= c.timeout_seconds <= 300
    &&& 1024 <= c.max_response_bytes <= 4_194_304
    &&& c.tools@.len() <= 128
    &&& forall|k: int| 0 <= k < c.tools@.len() ==> binding_valid(#[trigger] c.tools@[k])
    &&& forall|a: int, b: int| 0 <= a < b < c.tools@.len() ==> (#[trigger] c.tools@[a]).name@ != (#[trigger] c.tools@[b]).name@
}

fn check_binding(b: &McpToolBinding) -> (r: bool)
    ensures
        r == binding_valid(*b),
{
    let mut ok = true;
    let mut n: usize = 0;
    for c in it: b.name.as_str().chars()
        invariant
            it.seq() == b.name@,
            n == (if it.index() < 65 { it.index() } else { 65 }),
            ok == (forall|k: int| 0 <= k < it.index() ==> binding_name_char(#[trigger] b.name@[k])),
    {
        if !(('a' <= c && c <= 'z') || ('A' <= c && c <= 'Z') || ('0' <= c && c <= '9') || c == '_') {
            ok = false;
        }
        if n < 65 {
            n = n + 1;
        }
    }
    if !ok || n == 0 || n > 64 {
        return false;
    }
    let r = crate::text::byte_length(&b.remote_name);
    if r == 0 || r > 128 || crate::text::byte_length(&b.description) > 8192 {
        return false;
    }
    match parse(b.input_schema.as_str()) {
        Some(Json::Object(_)) => {},
        _ => return false,
    }
    crate::definitions::validate_schema(b.input_schema.as_str()).is_ok()
}

impl McpServerConfig {
    pub fn validate(&self) -> (r: Result<()>)
        ensures
            r is Ok <==> server_valid(*self),
            r is Err ==> r matches Err(Error::Invalid(_)),
    {
        if !check_endpoint(self.endpoint.as_str()) {
            return Err(invalid("MCP requires HTTPS or loopback HTTP without URL credentials"));
        }
        if !(1 <= self.timeout_seconds && self.timeout_seconds <= 300)
            || !(1024 <= self.max_response_bytes && self.max_response_bytes <= 4_194_304) || self.tools.len() > 128 {
            return Err(invalid("invalid MCP timeout, output limit, or tool count"));
        }
        let mut k: usize = 0;
        while k < self.tools.len()
            invariant
                k <= self.tools@.len(),
                forall|m: int| 0 <= m < k ==> binding_valid(#[trigger] self.tools@[m]),
                forall|a: int, b: int| 0 <= a < b < k ==> (#[trigger] self.tools@[a]).name@ != (#[trigger] self.tools@[b]).name@,
            decreases self.tools@.len() - k,
        {
            if !check_binding(&self.tools[k]) {
                return Err(invalid("invalid or duplicate MCP tool binding"));
            }
            let mut j: usize = 0;
            while j < k
                invariant
                    j <= k < self.tools@.len(),
                    forall|m: int| 0 <= m < j ==> self.tools@[m].name@ != self.tools@[k as int].name@,
                decreases k - j,
            {
                if self.tools[j].name == self.tools[k].name {
                    return Err(invalid("invalid or duplicate MCP tool binding"));
                }
                j = j + 1;
            }
            k = k + 1;
        }
        Ok(())
    }
}

/// A root's shared model budget: a group name and a positive limit.
pub struct SharedBudget {
    pub group: String,
    pub limit: u32,
}

pub struct HttpToolDefinition {
    pub name: String,
    pub description: String,
    pub endpoint: String,
    pub input_schema: String,
    pub output_schema: Option<String>,
    pub effect: Effect,
    pub token_env: Option<String>,
    pub require_approval: bool,
}

pub struct McpToolDefinition {
    pub name: String,
    pub remote_name: String,
    pub description: String,
    pub input_schema: String,
    pub effect: Effect,
    pub require_approval: Option<bool>,
}

pub struct McpServerDefinition {
    pub endpoint: String,
    pub bearer_env: Option<String>,
    pub timeout_seconds: u64,
    pub max_response_bytes: usize,
    pub require_approval: Option<bool>,
    pub tools: Vec<McpToolDefinition>,
}

pub struct SkillFile {
    pub name: String,
    pub description: String,
    pub path: String,
}

/// One agent of a configured tree. Schemas are JSON text; a goal's criteria
/// are validated by the host.
pub struct Definition {
    pub name: String,
    pub instructions: String,
    pub coordination: CoordinationPolicy,
    pub context: Option<ContextPolicy>,
    pub memory: Option<MemoryConfig>,
    pub allow_user_input: bool,
    pub model: Option<String>,
    pub endpoint: String,
    pub provider: String,
    pub api_key_env: Option<String>,
    pub max_output_tokens: u32,
    pub legacy_token_limit: bool,
    pub version: u32,
    pub skills: Vec<Skill>,
    pub skill_files: Vec<SkillFile>,
    pub loaded_packages: Vec<SkillPackage>,
    pub mcp_servers: Vec<McpServerDefinition>,
    pub output_schema: Option<String>,
    pub input_schema: Option<String>,
    pub limits: Limits,
    pub goal: Option<Goal>,
    pub http_tools: Vec<HttpToolDefinition>,
    pub shared_model_budget: Option<SharedBudget>,
    pub subagents: Vec<Definition>,
}

pub fn endpoint() -> (r: String)
    ensures
        r@ == "https://api.openai.com/v1/chat/completions"@,
{
    text("https://api.openai.com/v1/chat/completions")
}

pub fn version() -> (r: u32)
    ensures
        r == 1,
{
    1
}

pub fn mcp_timeout() -> (r: u64)
    ensures
        r == 60,
{
    60
}

pub fn mcp_output_limit() -> (r: usize)
    ensures
        r == 1_048_576,
{
    1_048_576
}

/// The model an agent uses: its own (not blank), or the default model of the
/// OpenAI-compatible protocol; another provider must name one.
pub open spec fn model_choice(model: Option<Seq<char>>, provider: Seq<char>) -> Option<Seq<char>> {
    match model {
        Some(m) => if blank(m) { None } else { Some(m) },
        None => if provider == ""@ || provider == "openai"@ { Some("gpt-4.1-mini"@) } else { None },
    }
}

pub fn selected_model(d: &Definition) -> (r: Result<String>)
    ensures
        r is Ok <==> model_choice(match d.model { Some(m) => Some(m@), None => None }, d.provider@) is Some,
        r matches Ok(m) ==> model_choice(match d.model { Some(m) => Some(m@), None => None }, d.provider@) == Some(m@),
        r is Err ==> r matches Err(Error::Invalid(_)),
{
    match &d.model {
        Some(m) => {
            if is_blank(m.as_str()) {
                return Err(invalid("model must not be empty"));
            }
            Ok(m.clone())
        },
        None => {
            if crate::text::str_equal(d.provider.as_str(), "") || crate::text::str_equal(d.provider.as_str(), "openai") {
                Ok(text("gpt-4.1-mini"))
            } else {
                Err(invalid("set a model for the selected provider explicitly"))
            }
        },
    }
}

pub open spec fn provider_supported(p: Seq<char>) -> bool {
    p == ""@ || p == "openai"@ || p == "anthropic"@ || p == "gemini"@ || p == "ollama"@
}

pub open spec fn schema_ok(s: Option<String>) -> bool {
    match s {
        None => true,
        Some(x) => schema_valid(x@),
    }
}

/// The names of the built-in tools that an agent's capabilities reserve.
pub open spec fn reserved_names(d: Definition) -> Seq<Seq<char>> {
    (if d.memory is Some { seq!["recall_memory"@, "retain_memory"@, "delete_memory"@] } else { seq![] })
        + (if d.context is Some { seq!["read_context_artifact"@] } else { seq![] })
        + (if d.allow_user_input { seq!["ask_user"@] } else { seq![] })
        + (if d.skills@.len() > 0 || d.loaded_packages@.len() > 0 { seq!["load_skill"@] } else { seq![] })
}

pub open spec fn http_names(v: Seq<HttpToolDefinition>) -> Seq<Seq<char>> {
    v.map_values(|t: HttpToolDefinition| t.name@)
}

pub open spec fn mcp_names(v: Seq<McpServerDefinition>) -> Seq<Seq<char>>
    decreases v.len(),
{
    if v.len() == 0 {
        seq![]
    } else {
        mcp_names(v.drop_last()) + v.last().tools@.map_values(|t: McpToolDefinition| t.name@)
    }
}

pub open spec fn delegate_names(v: Seq<Definition>) -> Seq<Seq<char>>
    decreases v.len(),
{
    if v.len() == 0 {
        seq![]
    } else {
        delegate_names(v.drop_last()) + seq!["delegate_"@ + v.last().name@, "join_delegate_"@ + v.last().name@]
    }
}

/// Every tool name an agent exposes, reserved names first.
pub open spec fn tool_names(d: Definition) -> Seq<Seq<char>> {
    reserved_names(d) + http_names(d.http_tools@) + mcp_names(d.mcp_servers@) + delegate_names(d.subagents@)
}

pub open spec fn adapter_valid(s: McpServerDefinition) -> bool {
    &&& endpoint_allowed(s.endpoint@)
    &&& 1 <= s.timeout_seconds <= 300
    &&& 1024 <= s.max_response_bytes <= 4_194_304
    &&& s.tools@.len() <= 128
    &&& forall|k: int| 0 <= k < s.tools@.len() ==> {
        let t = #[trigger] s.tools@[k];
        &&& 1 <= t.name@.len() <= 64
        &&& forall|i: int| 0 <= i < t.name@.len() ==> binding_name_char(#[trigger] t.name@[i])
        &&& 1 <= utf8_len(t.remote_name@) <= 128
        &&& utf8_len(t.description@) <= 8192
        &&& parse_json(t.input_schema@) matches Some(Json::Object(_))
        &&& schema_valid(t.input_schema@)
    }
    &&& forall|a: int, b: int| 0 <= a < b < s.tools@.len() ==> (#[trigger] s.tools@[a]).name@ != (#[trigger] s.tools@[b]).name@
}

/// The contracts of one agent, without its children.
pub open spec fn own_contracts_ok(d: Definition) -> bool {
    &&& !blank(d.name@) && !blank(d.instructions@) && d.version > 0
    &&& provider_supported(d.provider@)
    &&& model_choice(match d.model { Some(m) => Some(m@), None => None }, d.provider@) is Some
    &&& d.limits.all_positive()
    &&& d.coordination.valid()
    &&& d.memory matches Some(m) ==> m.valid()
    &&& d.context matches Some(c) ==> c.valid()
    &&& d.max_output_tokens > 0
    &&& schema_ok(d.input_schema) && schema_ok(d.output_schema)
    &&& d.goal matches Some(g) ==> crate::submit::goal_valid(g)
    &&& d.shared_model_budget matches Some(b) ==> !blank(b.group@) && utf8_len(b.group@) <= 256 && b.limit > 0
    &&& forall|k: int| 0 <= k < d.http_tools@.len() ==> !blank((#[trigger] d.http_tools@[k]).name@)
        && schema_valid(d.http_tools@[k].input_schema@) && schema_ok(d.http_tools@[k].output_schema)
    &&& d.mcp_servers@.len() <= 32
    &&& forall|k: int| 0 <= k < d.mcp_servers@.len() ==> adapter_valid(#[trigger] d.mcp_servers@[k])
    &&& tool_names(d).no_duplicates()
}

/// The contracts of an agent and of all its descendants.
pub open spec fn contracts_ok(d: Definition) -> bool
    decreases d,
{
    &&& own_contracts_ok(d)
    &&& forall|k: int| 0 <= k < d.subagents@.len() ==> contracts_ok(#[trigger] d.subagents@[k])
}

pub open spec fn names_view(v: Seq<String>) -> Seq<Seq<char>> {
    v.map_values(|s: String| s@)
}

/// Add a name that is not present yet.
fn add_name(names: &mut Vec<String>, n: String) -> (r: bool)
    ensures
        r == !names_view(old(names)@).contains(n@),
        r ==> names_view(final(names)@) == names_view(old(names)@).push(n@),
        !r ==> final(names)@ == old(names)@,
{
    let mut i: usize = 0;
    while i < names.len()
        invariant
            names@ == old(names)@,
            i <= names@.len(),
            forall|k: int| 0 <= k < i ==> names@[k]@ != n@,
        decreases names@.len() - i,
    {
        if names[i] == n {
            proof {
                assert(names_view(names@)[i as int] == n@);
            }
            return false;
        }
        i = i + 1;
    }
    proof {
        assert forall|k: int| 0 <= k < names@.len() implies names_view(names@)[k] != n@ by {
            assert(names_view(names@)[k] == names@[k]@);
        }
    }
    let ghost before = names@;
    names.push(n);
    proof {
        assert(names_view(names@) =~= names_view(before).push(n@));
    }
    true
}

proof fn lemma_no_dup_prefix(s: Seq<Seq<char>>, n: int)
    requires
        s.no_duplicates(),
        0 <= n <= s.len(),
    ensures
        s.take(n).no_duplicates(),
{
}

/// Add names in order; false at the first that is present.
fn add_all(names: &mut Vec<String>, more: Vec<String>) -> (r: bool)
    requires
        names_view(old(names)@).no_duplicates(),
    ensures
        r == (names_view(old(names)@) + names_view(more@)).no_duplicates(),
        r ==> names_view(final(names)@) == names_view(old(names)@) + names_view(more@),
        names_view(final(names)@).no_duplicates(),
{
    let ghost start = names_view(names@);
    let ghost all = start + names_view(more@);
    let mut i: usize = 0;
    while i < more.len()
        invariant
            i <= more@.len(),
            start == names_view(old(names)@),
            all == start + names_view(more@),
            names_view(names@) == all.take(start.len() + i),
            names_view(names@).no_duplicates(),
        decreases more@.len() - i,
    {
        let n = more[i].clone();
        if !add_name(names, n) {
            proof {
                assert(all.take(start.len() + i + 1) == names_view(names@).push(more@[i as int]@)) by {
                    assert(all.take(start.len() + i + 1) =~= all.take(start.len() + i).push(all[start.len() + i]));
                }
                assert(names_view(names@).contains(more@[i as int]@));
                let k = choose|k: int| 0 <= k < names_view(names@).len() && names_view(names@)[k] == more@[i as int]@;
                let p = all.take(start.len() + i + 1);
                assert(p[k] == more@[i as int]@);
                assert(p[start.len() + i] == more@[i as int]@);
                assert(!p.no_duplicates());
                assert(!all.no_duplicates()) by {
                    if all.no_duplicates() {
                        lemma_no_dup_prefix(all, start.len() + i + 1);
                    }
                }
            }
            return false;
        }
        proof {
            assert(all.take(start.len() + i + 1) =~= all.take(start.len() + i).push(all[start.len() + i]));
        }
        i = i + 1;
    }
    proof {
        assert(all.take(all.len() as int) =~= all);
    }
    true
}

fn strings_of(v: Vec<&str>) -> (r: Vec<String>)
    ensures
        r@.len() == v@.len(),
        forall|k: int| 0 <= k < v@.len() ==> (#[trigger] r@[k])@ == v@[k]@,
{
    let mut r: Vec<String> = Vec::new();
    let mut i: usize = 0;
    while i < v.len()
        invariant
            i <= v@.len(),
            r@.len() == i,
            forall|k: int| 0 <= k < i ==> (#[trigger] r@[k])@ == v@[k]@,
        decreases v@.len() - i,
    {
        r.push(text(v[i]));
        i = i + 1;
    }
    r
}

fn check_tool_def(t: &McpToolDefinition) -> (r: bool)
    ensures
        r == ({
            &&& 1 <= t.name@.len() <= 64
            &&& forall|i: int| 0 <= i < t.name@.len() ==> binding_name_char(#[trigger] t.name@[i])
            &&& 1 <= utf8_len(t.remote_name@) <= 128
            &&& utf8_len(t.description@) <= 8192
            &&& parse_json(t.input_schema@) matches Some(Json::Object(_))
            &&& schema_valid(t.input_schema@)
        }),
{
    let b = McpToolBinding {
        name: t.name.clone(),
        remote_name: t.remote_name.clone(),
        description: t.description.clone(),
        input_schema: t.input_schema.clone(),
        effect: t.effect,
    };
    check_binding(&b)
}

fn check_adapter(s: &McpServerDefinition) -> (r: bool)
    ensures
        r == adapter_valid(*s),
{
    if !check_endpoint(s.endpoint.as_str()) || !(1 <= s.timeout_seconds && s.timeout_seconds <= 300)
        || !(1024 <= s.max_response_bytes && s.max_response_bytes <= 4_194_304) || s.tools.len() > 128 {
        return false;
    }
    let mut k: usize = 0;
    while k < s.tools.len()
        invariant
            k <= s.tools@.len(),
            forall|m: int| 0 <= m < k ==> {
                let t = #[trigger] s.tools@[m];
                &&& 1 <= t.name@.len() <= 64
                &&& forall|i: int| 0 <= i < t.name@.len() ==> binding_name_char(#[trigger] t.name@[i])
                &&& 1 <= utf8_len(t.remote_name@) <= 128
                &&& utf8_len(t.description@) <= 8192
                &&& parse_json(t.input_schema@) matches Some(Json::Object(_))
                &&& schema_valid(t.input_schema@)
            },
            forall|a: int, b: int| 0 <= a < b < k ==> (#[trigger] s.tools@[a]).name@ != (#[trigger] s.tools@[b]).name@,
        decreases s.tools@.len() - k,
    {
        if !check_tool_def(&s.tools[k]) {
            return false;
        }
        let mut j: usize = 0;
        while j < k
            invariant
                j <= k < s.tools@.len(),
                forall|m: int| 0 <= m < j ==> s.tools@[m].name@ != s.tools@[k as int].name@,
            decreases k - j,
        {
            if s.tools[j].name == s.tools[k].name {
                return false;
            }
            j = j + 1;
        }
        k = k + 1;
    }
    true
}

proof fn lemma_view_push(v: Seq<String>, x: String)
    ensures
        names_view(v.push(x)) == names_view(v).push(x@),
{
    assert(names_view(v.push(x)) =~= names_view(v).push(x@));
}

fn push_all(out: &mut Vec<String>, more: Vec<String>)
    ensures
        names_view(final(out)@) == names_view(old(out)@) + names_view(more@),
{
    let ghost start = out@;
    let mut i: usize = 0;
    while i < more.len()
        invariant
            i <= more@.len(),
            names_view(out@) == names_view(start) + names_view(more@.take(i as int)),
        decreases more@.len() - i,
    {
        let ghost prev = out@;
        out.push(more[i].clone());
        proof {
            lemma_view_push(prev, more@[i as int]);
            assert(names_view(more@.take(i as int + 1)) =~= names_view(more@.take(i as int)).push(more@[i as int]@));
            assert(names_view(out@) =~= names_view(start) + names_view(more@.take(i as int + 1)));
        }
        i = i + 1;
    }
    proof {
        assert(more@.take(more@.len() as int) =~= more@);
    }
}

/// Every tool name of an agent, in the order `tool_names` lists them.
fn collect_names(d: &Definition) -> (r: Vec<String>)
    ensures
        names_view(r@) == tool_names(*d),
{
    let mut out: Vec<String> = Vec::new();
    if d.memory.is_some() {
        push_all(&mut out, strings_of(vec!["recall_memory", "retain_memory", "delete_memory"]));
    }
    if d.context.is_some() {
        push_all(&mut out, strings_of(vec!["read_context_artifact"]));
    }
    if d.allow_user_input {
        push_all(&mut out, strings_of(vec!["ask_user"]));
    }
    if d.skills.len() > 0 || d.loaded_packages.len() > 0 {
        push_all(&mut out, strings_of(vec!["load_skill"]));
    }
    proof {
        assert(names_view(out@) =~= reserved_names(*d));
    }
    let ghost after_reserved = names_view(out@);
    let mut i: usize = 0;
    while i < d.http_tools.len()
        invariant
            i <= d.http_tools@.len(),
            names_view(out@) == after_reserved + http_names(d.http_tools@.take(i as int)),
        decreases d.http_tools@.len() - i,
    {
        let ghost prev = out@;
        out.push(d.http_tools[i].name.clone());
        proof {
            lemma_view_push(prev, d.http_tools@[i as int].name);
            assert(http_names(d.http_tools@.take(i as int + 1)) =~= http_names(d.http_tools@.take(i as int)).push(d.http_tools@[i as int].name@));
            assert(names_view(out@) =~= after_reserved + http_names(d.http_tools@.take(i as int + 1)));
        }
        i = i + 1;
    }
    proof {
        assert(d.http_tools@.take(d.http_tools@.len() as int) =~= d.http_tools@);
    }
    let ghost after_http = names_view(out@);
    let mut i: usize = 0;
    while i < d.mcp_servers.len()
        invariant
            i <= d.mcp_servers@.len(),
            names_view(out@) == after_http + mcp_names(d.mcp_servers@.take(i as int)),
        decreases d.mcp_servers@.len() - i,
    {
        let tools = &d.mcp_servers[i].tools;
        let ghost before = names_view(out@);
        let mut j: usize = 0;
        while j < tools.len()
            invariant
                j <= tools@.len(),
                names_view(out@) == before + tools@.take(j as int).map_values(|t: McpToolDefinition| t.name@),
            decreases tools@.len() - j,
        {
            let ghost prev = out@;
            out.push(tools[j].name.clone());
            proof {
                lemma_view_push(prev, tools@[j as int].name);
                assert(tools@.take(j as int + 1).map_values(|t: McpToolDefinition| t.name@)
                    =~= tools@.take(j as int).map_values(|t: McpToolDefinition| t.name@).push(tools@[j as int].name@));
                assert(names_view(out@) =~= before + tools@.take(j as int + 1).map_values(|t: McpToolDefinition| t.name@));
            }
            j = j + 1;
        }
        proof {
            assert(tools@.take(tools@.len() as int) =~= tools@);
            let t = d.mcp_servers@.take(i as int + 1);
            assert(t.drop_last() =~= d.mcp_servers@.take(i as int));
            assert(names_view(out@) =~= after_http + mcp_names(t));
        }
        i = i + 1;
    }
    proof {
        assert(d.mcp_servers@.take(d.mcp_servers@.len() as int) =~= d.mcp_servers@);
    }
    let ghost after_mcp = names_view(out@);
    let mut i: usize = 0;
    while i < d.subagents.len()
        invariant
            i <= d.subagents@.len(),
            names_view(out@) == after_mcp + delegate_names(d.subagents@.take(i as int)),
        decreases d.subagents@.len() - i,
    {
        let mut a = text("delegate_");
        crate::json::put(&mut a, d.subagents[i].name.as_str());
        let mut b = text("join_delegate_");
        crate::json::put(&mut b, d.subagents[i].name.as_str());
        let ghost prev = out@;
        let ghost av = a;
        let ghost bv = b;
        out.push(a);
        proof {
            lemma_view_push(prev, av);
            lemma_view_push(prev.push(av), bv);
        }
        out.push(b);
        proof {
            let t = d.subagents@.take(i as int + 1);
            assert(t.drop_last() =~= d.subagents@.take(i as int));
            assert(names_view(out@) =~= after_mcp + delegate_names(t));
        }
        i = i + 1;
    }
    proof {
        assert(d.subagents@.take(d.subagents@.len() as int) =~= d.subagents@);
        assert(names_view(out@) =~= tool_names(*d));
    }
    out
}

fn optional_schema_ok(s: &Option<String>) -> (r: bool)
    ensures
        r == schema_ok(*s),
{
    match s {
        None => true,
        Some(x) => crate::definitions::validate_schema(x.as_str()).is_ok(),
    }
}

fn own_contracts(d: &Definition) -> (r: bool)
    ensures
        r == own_contracts_ok(*d),
{
    if is_blank(d.name.as_str()) || is_blank(d.instructions.as_str()) || d.version == 0 {
        return false;
    }
    let p = d.provider.as_str();
    if !(crate::text::str_equal(p, "") || crate::text::str_equal(p, "openai") || crate::text::str_equal(p, "anthropic")
        || crate::text::str_equal(p, "gemini") || crate::text::str_equal(p, "ollama")) {
        return false;
    }
    if selected_model(d).is_err() || d.limits.validate().is_err() || d.coordination.validate().is_err() {
        return false;
    }
    match &d.memory {
        Some(m) => if m.validate().is_err() { return false; },
        None => {},
    }
    match &d.context {
        Some(c) => if c.validate().is_err() { return false; },
        None => {},
    }
    if d.max_output_tokens == 0 || !optional_schema_ok(&d.input_schema) || !optional_schema_ok(&d.output_schema) {
        return false;
    }
    match &d.goal {
        Some(g) => {
            if is_blank(g.objective.as_str()) || crate::text::byte_length(&g.objective) > 16384
                || crate::definitions::validate_schema(g.success_schema.as_str()).is_err() {
                return false;
            }
        },
        None => {},
    }
    match &d.shared_model_budget {
        Some(b) => {
            if is_blank(b.group.as_str()) || crate::text::byte_length(&b.group) > 256 || b.limit == 0 {
                return false;
            }
        },
        None => {},
    }
    let mut k: usize = 0;
    while k < d.http_tools.len()
        invariant
            k <= d.http_tools@.len(),
            forall|m: int| 0 <= m < k ==> !blank((#[trigger] d.http_tools@[m]).name@)
                && schema_valid(d.http_tools@[m].input_schema@) && schema_ok(d.http_tools@[m].output_schema),
        decreases d.http_tools@.len() - k,
    {
        let t = &d.http_tools[k];
        if is_blank(t.name.as_str()) || crate::definitions::validate_schema(t.input_schema.as_str()).is_err()
            || !optional_schema_ok(&t.output_schema) {
            return false;
        }
        k = k + 1;
    }
    if d.mcp_servers.len() > 32 {
        return false;
    }
    let mut k: usize = 0;
    while k < d.mcp_servers.len()
        invariant
            k <= d.mcp_servers@.len(),
            forall|m: int| 0 <= m < k ==> adapter_valid(#[trigger] d.mcp_servers@[m]),
        decreases d.mcp_servers@.len() - k,
    {
        if !check_adapter(&d.mcp_servers[k]) {
            return false;
        }
        k = k + 1;
    }
    let names = collect_names(d);
    let mut seen: Vec<String> = Vec::new();
    proof {
        assert(names_view(seen@) =~= Seq::<Seq<char>>::empty());
        assert(names_view(seen@) + names_view(names@) =~= names_view(names@));
    }
    add_all(&mut seen, names)
}

/// Validate the contracts of an agent and of all its descendants before
/// startup: names, instructions and versions; a supported provider and model;
/// valid limits, coordination, memory and context policies; usable schemas,
/// goal and shared budget; valid MCP servers; and distinct tool names,
/// reserved names and delegation tools included.
pub fn validate_contracts(d: &Definition) -> (r: Result<()>)
    ensures
        r is Ok <==> contracts_ok(*d),
        r is Err ==> r matches Err(Error::Invalid(_)),
    decreases d,
{
    if !own_contracts(d) {
        return Err(invalid("agent requires valid contracts and distinct tool names"));
    }
    let mut k: usize = 0;
    while k < d.subagents.len()
        invariant
            own_contracts_ok(*d),
            k <= d.subagents@.len(),
            forall|m: int| 0 <= m < k ==> contracts_ok(#[trigger] d.subagents@[m]),
        decreases d.subagents@.len() - k,
    {
        proof {
            assert(decreases_to!(*d => d.subagents));
            assert(decreases_to!(d.subagents => d.subagents@));
            assert(decreases_to!(d.subagents@ => d.subagents@[k as int]));
        }
        validate_contracts(&d.subagents[k])?;
        k = k + 1;
    }
    Ok(())
}


/// What the tree check reads of one agent: its name, its depth below the
/// root, and whether it sets its own shared budget or goal.
pub open spec fn tree_entry(d: Definition, depth: nat) -> (Seq<char>, nat, bool) {
    (d.name@, depth, d.shared_model_budget is Some || d.goal is Some)
}

/// The agents of a tree in preorder (an agent, then each child's subtree in
/// order), the root at the given depth.
pub open spec fn preorder(d: Definition, depth: nat) -> Seq<(Seq<char>, nat, bool)>
    decreases d, 0nat,
{
    proof {
        assert(decreases_to!(d => d.subagents));
        assert(decreases_to!(d.subagents => d.subagents@));
    }
    seq![tree_entry(d, depth)] + preorder_all(d.subagents@, depth + 1)
}

/// The preorders of sibling subtrees, one after another.
pub open spec fn preorder_all(ds: Seq<Definition>, depth: nat) -> Seq<(Seq<char>, nat, bool)>
    decreases ds, 1nat,
{
    if ds.len() == 0 {
        Seq::empty()
    } else {
        preorder_all(ds.drop_last(), depth) + preorder(ds.last(), depth)
    }
}

pub open spec fn entry_names(q: Seq<(Seq<char>, nat, bool)>) -> Seq<Seq<char>> {
    q.map_values(|e: (Seq<char>, nat, bool)| e.0)
}

/// The agent at position `i` of the walk is the 33rd or later, or lies deeper
/// than four levels below the root.
pub open spec fn tree_too_large(seen: Seq<Seq<char>>, q: Seq<(Seq<char>, nat, bool)>, i: int) -> bool {
    seen.len() + i >= 32 || q[i].1 > 4
}

/// The agent at position `i` repeats a name seen before it.
pub open spec fn tree_repeats(seen: Seq<Seq<char>>, q: Seq<(Seq<char>, nat, bool)>, i: int) -> bool {
    (seen + entry_names(q.take(i))).contains(q[i].0)
}

/// The agent at position `i` is a child that sets its own budget or goal.
pub open spec fn tree_overrides(q: Seq<(Seq<char>, nat, bool)>, i: int) -> bool {
    q[i].1 > 0 && q[i].2
}

pub open spec fn tree_violation(seen: Seq<Seq<char>>, q: Seq<(Seq<char>, nat, bool)>, i: int) -> bool {
    tree_too_large(seen, q, i) || tree_repeats(seen, q, i) || tree_overrides(q, i)
}

/// The walk, after the names in `seen`, meets no violation.
pub open spec fn tree_clean(seen: Seq<Seq<char>>, q: Seq<(Seq<char>, nat, bool)>) -> bool {
    forall|i: int| 0 <= i < q.len() ==> !#[trigger] tree_violation(seen, q, i)
}

/// Position `i` is the first violation of the walk.
pub open spec fn first_tree_violation(seen: Seq<Seq<char>>, q: Seq<(Seq<char>, nat, bool)>, i: int) -> bool {
    &&& 0 <= i < q.len()
    &&& tree_violation(seen, q, i)
    &&& forall|j: int| 0 <= j < i ==> !#[trigger] tree_violation(seen, q, j)
}

/// The message of the check that fails first at a position.
pub open spec fn tree_message(seen: Seq<Seq<char>>, q: Seq<(Seq<char>, nat, bool)>, i: int) -> Seq<char> {
    if tree_too_large(seen, q, i) {
        "agent tree exceeds depth 4 or 32 total agents"@
    } else if tree_repeats(seen, q, i) {
        "agent names must be unique within the tree"@
    } else {
        "child configs inherit the root budget; put child acceptance criteria in output_schema"@
    }
}

/// A tree has at most 32 agents, none deeper than four levels below the
/// root, with distinct names, and no child sets a shared budget or a goal.
pub open spec fn tree_shape_ok(d: Definition) -> bool {
    tree_clean(Seq::empty(), preorder(d, 0))
}

proof fn lemma_entry_names_add(a: Seq<(Seq<char>, nat, bool)>, b: Seq<(Seq<char>, nat, bool)>)
    ensures
        entry_names(a + b) == entry_names(a) + entry_names(b),
{
    assert(entry_names(a + b) =~= entry_names(a) + entry_names(b));
}

/// Checks at a position read only what stands before it and at it.
proof fn lemma_violation_prefix(seen: Seq<Seq<char>>, q: Seq<(Seq<char>, nat, bool)>, n: int, i: int)
    requires
        0 <= i < n <= q.len(),
    ensures
        tree_too_large(seen, q.take(n), i) == tree_too_large(seen, q, i),
        tree_repeats(seen, q.take(n), i) == tree_repeats(seen, q, i),
        tree_overrides(q.take(n), i) == tree_overrides(q, i),
{
    assert(q.take(n).take(i) =~= q.take(i));
}

/// A check past a prefix is the same check with the prefix's names seen.
proof fn lemma_violation_shift(
    seen: Seq<Seq<char>>,
    a: Seq<(Seq<char>, nat, bool)>,
    b: Seq<(Seq<char>, nat, bool)>,
    j: int,
)
    requires
        0 <= j < b.len(),
    ensures
        tree_too_large(seen, a + b, a.len() + j) == tree_too_large(seen + entry_names(a), b, j),
        tree_repeats(seen, a + b, a.len() + j) == tree_repeats(seen + entry_names(a), b, j),
        tree_overrides(a + b, a.len() + j) == tree_overrides(b, j),
{
    assert((a + b).take(a.len() + j) =~= a + b.take(j));
    lemma_entry_names_add(a, b.take(j));
    assert(seen + entry_names(a + b.take(j)) =~= (seen + entry_names(a)) + entry_names(b.take(j)));
    assert((a + b)[a.len() + j] == b[j]);
}

/// The preorder of the first `m` siblings is a prefix of that of all.
proof fn lemma_preorder_prefix(ds: Seq<Definition>, depth: nat, m: int)
    requires
        0 <= m <= ds.len(),
    ensures
        preorder_all(ds.take(m), depth).len() <= preorder_all(ds, depth).len(),
        preorder_all(ds, depth).take(preorder_all(ds.take(m), depth).len() as int)
            == preorder_all(ds.take(m), depth),
    decreases ds.len(),
{
    let whole = preorder_all(ds, depth);
    if m == ds.len() {
        assert(ds.take(m) =~= ds);
        assert(whole.take(whole.len() as int) =~= whole);
    } else {
        let rest = ds.drop_last();
        assert(rest.take(m) =~= ds.take(m));
        lemma_preorder_prefix(rest, depth, m);
        let p = preorder_all(rest, depth);
        let k = preorder_all(ds.take(m), depth).len() as int;
        assert(whole == p + preorder(ds.last(), depth));
        assert(whole.take(k) =~= p.take(k));
    }
}

/// The preorder of the first `m + 1` siblings extends that of the first `m`
/// by the subtree of sibling `m`.
proof fn lemma_preorder_step(ds: Seq<Definition>, depth: nat, m: int)
    requires
        0 <= m < ds.len(),
    ensures
        preorder_all(ds.take(m + 1), depth) == preorder_all(ds.take(m), depth) + preorder(ds[m], depth),
{
    assert(ds.take(m + 1).drop_last() =~= ds.take(m));
    assert(ds.take(m + 1).last() == ds[m]);
}

/// Walk one subtree in preorder, the names of the agents walked before it
/// in `names`, and stop at the first agent that breaks the tree's shape.
fn walk_tree(d: &Definition, depth: usize, names: &mut Vec<String>) -> (r: Result<()>)
    requires
        depth <= 5,
    ensures
        r is Ok <==> tree_clean(names_view(old(names)@), preorder(*d, depth as nat)),
        r is Ok ==> names_view(final(names)@) == names_view(old(names)@) + entry_names(
            preorder(*d, depth as nat),
        ),
        r is Err ==> exists|i: int|
            first_tree_violation(names_view(old(names)@), preorder(*d, depth as nat), i)
                && (r matches Err(Error::Invalid(m)) && m@ == tree_message(
                names_view(old(names)@),
                preorder(*d, depth as nat),
                i,
            )),
    decreases *d,
{
    let ghost s0 = names_view(names@);
    let ghost q = preorder(*d, depth as nat);
    let ghost head = seq![tree_entry(*d, depth as nat)];
    let ghost kids = d.subagents@;
    proof {
        assert(q == head + preorder_all(kids, depth as nat + 1));
        assert(q[0] == tree_entry(*d, depth as nat));
        assert(q.take(0) =~= Seq::<(Seq<char>, nat, bool)>::empty());
        assert(entry_names(q.take(0)) =~= Seq::<Seq<char>>::empty());
        assert(s0 + entry_names(q.take(0)) =~= s0);
    }
    if names.len() >= 32 || depth > 4 {
        proof {
            assert(tree_too_large(s0, q, 0));
            assert(first_tree_violation(s0, q, 0));
        }
        return Err(invalid("agent tree exceeds depth 4 or 32 total agents"));
    }
    if !add_name(names, d.name.clone()) {
        proof {
            assert(tree_repeats(s0, q, 0));
            assert(first_tree_violation(s0, q, 0));
        }
        return Err(invalid("agent names must be unique within the tree"));
    }
    if depth > 0 && (d.shared_model_budget.is_some() || d.goal.is_some()) {
        proof {
            assert(!tree_repeats(s0, q, 0));
            assert(tree_overrides(q, 0));
            assert(first_tree_violation(s0, q, 0));
        }
        return Err(invalid(
            "child configs inherit the root budget; put child acceptance criteria in output_schema",
        ));
    }
    proof {
        assert(!tree_violation(s0, q, 0));
        assert(entry_names(head) =~= seq![d.name@]);
        assert(names_view(names@) == s0 + entry_names(head + preorder_all(kids.take(0), depth as nat + 1))) by {
            assert(kids.take(0) =~= Seq::<Definition>::empty());
            assert(head + preorder_all(kids.take(0), depth as nat + 1) =~= head);
        }
        assert forall|i: int| 0 <= i < (head + preorder_all(kids.take(0), depth as nat + 1)).len()
            implies !#[trigger] tree_violation(s0, head + preorder_all(kids.take(0), depth as nat + 1), i) by {
            assert(kids.take(0) =~= Seq::<Definition>::empty());
            assert(head + preorder_all(kids.take(0), depth as nat + 1) =~= head);
            assert(i == 0);
            lemma_violation_prefix(s0, q, 1, 0);
            assert(q.take(1) =~= head);
        }
    }
    let mut k: usize = 0;
    while k < d.subagents.len()
        invariant
            depth <= 4,
            k <= kids.len(),
            kids == d.subagents@,
            q == preorder(*d, depth as nat),
            q == head + preorder_all(kids, depth as nat + 1),
            head == seq![tree_entry(*d, depth as nat)],
            s0 == names_view(old(names)@),
            names_view(names@) == s0 + entry_names(head + preorder_all(kids.take(k as int), depth as nat + 1)),
            tree_clean(s0, head + preorder_all(kids.take(k as int), depth as nat + 1)),
        decreases kids.len() - k,
    {
        let ghost done = head + preorder_all(kids.take(k as int), depth as nat + 1);
        let ghost before = names_view(names@);
        let ghost sub = preorder(kids[k as int], depth as nat + 1);
        proof {
            assert(decreases_to!(*d => d.subagents));
            assert(decreases_to!(d.subagents => d.subagents@));
            assert(decreases_to!(d.subagents@ => d.subagents@[k as int]));
            lemma_preorder_step(kids, depth as nat + 1, k as int);
            lemma_preorder_prefix(kids, depth as nat + 1, k as int + 1);
            lemma_entry_names_add(head, preorder_all(kids.take(k as int), depth as nat + 1));
            lemma_entry_names_add(done, sub);
        }
        let res = walk_tree(&d.subagents[k], depth + 1, names);
        let ghost next = done + sub;
        proof {
            assert(next == head + preorder_all(kids.take(k as int + 1), depth as nat + 1)) by {
                assert(head + (preorder_all(kids.take(k as int), depth as nat + 1) + sub)
                    =~= done + sub);
            }
            let tail = preorder_all(kids, depth as nat + 1);
            let pre = preorder_all(kids.take(k as int + 1), depth as nat + 1);
            assert(q.take(next.len() as int) == next) by {
                assert(tail.take(pre.len() as int) == pre);
                assert(q.take(next.len() as int) =~= head + tail.take(pre.len() as int));
            }
            assert(before == s0 + entry_names(done));
        }
        match res {
            Err(e) => {
                proof {
                    let j = choose|j: int| first_tree_violation(before, sub, j)
                        && (res matches Err(Error::Invalid(m)) && m@ == tree_message(before, sub, j));
                    let i = done.len() + j;
                    lemma_violation_shift(s0, done, sub, j);
                    lemma_violation_prefix(s0, q, next.len() as int, i);
                    assert forall|x: int| 0 <= x < i implies !#[trigger] tree_violation(s0, q, x) by {
                        lemma_violation_prefix(s0, q, next.len() as int, x);
                        if x < done.len() {
                            assert(next.take(done.len() as int) =~= done);
                            lemma_violation_prefix(s0, next, done.len() as int, x);
                            assert(!tree_violation(s0, done, x));
                        } else {
                            lemma_violation_shift(s0, done, sub, x - done.len());
                            assert(!tree_violation(before, sub, x - done.len()));
                        }
                    }
                    assert(first_tree_violation(s0, q, i));
                }
                return Err(e);
            },
            Ok(()) => {
                proof {
                    assert forall|x: int| 0 <= x < next.len() implies !#[trigger] tree_violation(s0, next, x) by {
                        if x < done.len() {
                            assert(next.take(done.len() as int) =~= done);
                            lemma_violation_prefix(s0, next, done.len() as int, x);
                            assert(!tree_violation(s0, done, x));
                        } else {
                            lemma_violation_shift(s0, done, sub, x - done.len());
                            assert(!tree_violation(before, sub, x - done.len()));
                        }
                    }
                    assert(names_view(names@) == s0 + entry_names(next)) by {
                        assert(s0 + entry_names(done) + entry_names(sub) =~= s0 + (entry_names(done) + entry_names(sub)));
                    }
                }
            },
        }
        k = k + 1;
    }
    proof {
        assert(kids.take(kids.len() as int) =~= kids);
    }
    Ok(())
}

/// Check the shape of an agent tree before startup: at most 32 agents, none
/// deeper than four levels below the root, distinct names throughout, and no
/// child with its own shared budget or goal (children inherit the root's).
/// The error is that of the first agent, in preorder, that breaks a rule.
pub fn validate_tree(d: &Definition) -> (r: Result<()>)
    ensures
        r is Ok <==> tree_shape_ok(*d),
        r is Err ==> exists|i: int|
            first_tree_violation(Seq::empty(), preorder(*d, 0), i)
                && (r matches Err(Error::Invalid(m)) && m@ == tree_message(Seq::empty(), preorder(*d, 0), i)),
{
    let mut names: Vec<String> = Vec::new();
    proof {
        assert(names_view(names@) =~= Seq::<Seq<char>>::empty());
    }
    walk_tree(d, 0, &mut names)
}

/// The shape rules of a configuration file checked before its skill files
/// are read: the tree's shape, and a shared model budget on the root of any
/// tree with subagents.
pub fn validate_startup_tree(d: &Definition) -> (r: Result<()>)
    ensures
        r is Ok <==> tree_shape_ok(*d) && (d.subagents@.len() > 0 ==> d.shared_model_budget is Some),
        !tree_shape_ok(*d) ==> exists|i: int|
            first_tree_violation(Seq::empty(), preorder(*d, 0), i)
                && (r matches Err(Error::Invalid(m)) && m@ == tree_message(Seq::empty(), preorder(*d, 0), i)),
        tree_shape_ok(*d) && d.subagents@.len() > 0 && d.shared_model_budget is None ==> (r matches Err(
            Error::Invalid(m),
        ) && m@ == "subagent trees require shared_model_budget on the root"@),
{
    validate_tree(d)?;
    if d.subagents.len() > 0 && d.shared_model_budget.is_none() {
        return Err(invalid("subagent trees require shared_model_budget on the root"));
    }
    Ok(())
}

fn copy_text(o: &Option<String>) -> (r: Option<String>)
    ensures
        r == *o,
{
    match o {
        Some(s) => Some(s.clone()),
        None => None,
    }
}

/// The approval an MCP tool is held to: its own choice, else its server's,
/// else approval exactly for tools that write.
pub fn mcp_tool_approval(tool: &McpToolDefinition, server: &McpServerDefinition) -> (r: bool)
    ensures
        r == match tool.require_approval {
            Some(a) => a,
            None => match server.require_approval {
                Some(a) => a,
                None => tool.effect == Effect::Write,
            },
        },
{
    match tool.require_approval {
        Some(a) => a,
        None => match server.require_approval {
            Some(a) => a,
            None => match tool.effect {
                Effect::Write => true,
                Effect::Read => false,
            },
        },
    }
}

/// The tool record an HTTP tool of an agent version is published as, with
/// the policy that guards it: the owner alone may call it and approve it,
/// and approval is required as the definition says.
pub fn http_tool_record(agent_name: &String, version: u32, actor: &Actor, spec: &HttpToolDefinition)
    -> (r: (Tool, Policy))
    ensures
        r.0.id@ == agent_name@ + ":"@ + spec.name@,
        r.0.workspace_id@ == actor.workspace_id@,
        r.0.version == version,
        r.0.schema_version == SCHEMA_VERSION,
        r.0.name@ == spec.name@,
        r.0.description@ == spec.description@,
        r.0.input_schema@ == spec.input_schema@,
        r.0.output_schema == spec.output_schema,
        r.0.execution == (Execution::Http { endpoint: spec.endpoint }),
        r.0.credential_ref == spec.token_env,
        r.0.policy_ref@ == "http:"@ + agent_name@ + ":"@ + decimal(version as nat) + ":"@ + spec.name@,
        r.0.effect == spec.effect,
        r.0.created_at == 0,
        r.1.actors@.len() == 1 && r.1.actors@[0]@ == actor.id@,
        r.1.approvers@.len() == 1 && r.1.approvers@[0]@ == actor.id@,
        r.1.require_approval == spec.require_approval,
{
    let mut id = agent_name.clone();
    id.append(":");
    id.append(spec.name.as_str());
    let mut policy_ref = text("http:");
    policy_ref.append(agent_name.as_str());
    policy_ref.append(":");
    let v = decimal_text(version as u64);
    policy_ref.append(v.as_str());
    policy_ref.append(":");
    policy_ref.append(spec.name.as_str());
    proof {
        reveal_strlit(":");
        reveal_strlit("http:");
    }
    let tool = Tool {
        id,
        workspace_id: actor.workspace_id.clone(),
        version,
        schema_version: SCHEMA_VERSION,
        name: spec.name.clone(),
        description: spec.description.clone(),
        input_schema: spec.input_schema.clone(),
        output_schema: copy_text(&spec.output_schema),
        execution: Execution::Http { endpoint: spec.endpoint.clone() },
        credential_ref: copy_text(&spec.token_env),
        policy_ref,
        effect: spec.effect,
        created_at: 0,
    };
    let policy = Policy {
        actors: vec![actor.id.clone()],
        approvers: vec![actor.id.clone()],
        require_approval: spec.require_approval,
    };
    (tool, policy)
}

/// The sentence appended to a deferred team root's instructions.
pub open spec fn team_note() -> Seq<char> {
    "\n\nDelegation submits durable child runs. The scheduler waits for the delegated team before your next model turn. Use each join_delegate tool with the returned child_run ID to retrieve the completed result; the original delegation receipt only reports submission. Do not claim success without inspecting each child result."@
}

/// The agent record a definition is published as, in the owner's workspace,
/// with the selected model and the given tool bindings. A team root whose
/// children run deferred is told how delegation works.
pub fn agent_record(d: &Definition, actor: &Actor, model: String, tools: Vec<AgentTool>, deferred: bool) -> (r: Agent)
    ensures
        r.id@ == d.name@,
        r.workspace_id@ == actor.workspace_id@,
        r.version == d.version,
        r.schema_version == SCHEMA_VERSION,
        r.name@ == d.name@,
        r.instructions@ == if deferred && d.subagents@.len() > 0 { d.instructions@ + team_note() } else { d.instructions@ },
        r.allow_user_input == d.allow_user_input,
        r.model@ == model@,
        r.tools@ == tools@,
        r.input_schema == d.input_schema,
        r.output_schema == d.output_schema,
        r.limits == d.limits,
        r.created_at == 0,
{
    let mut instructions = d.instructions.clone();
    if deferred && d.subagents.len() > 0 {
        instructions.append("\n\nDelegation submits durable child runs. The scheduler waits for the delegated team before your next model turn. Use each join_delegate tool with the returned child_run ID to retrieve the completed result; the original delegation receipt only reports submission. Do not claim success without inspecting each child result.");
    }
    Agent {
        id: d.name.clone(),
        workspace_id: actor.workspace_id.clone(),
        version: d.version,
        schema_version: SCHEMA_VERSION,
        name: d.name.clone(),
        allow_user_input: d.allow_user_input,
        instructions,
        model,
        tools,
        input_schema: copy_text(&d.input_schema),
        output_schema: copy_text(&d.output_schema),
        limits: d.limits.copy(),
        created_at: 0,
    }
}

/// What pins an agent version's model transport: SHA-256 of the JSON
/// `[provider, endpoint, max_output_tokens, legacy_token_limit]`.
pub open spec fn transport_fingerprint(d: Definition) -> Seq<char> {
    text_digest("["@ + json_string(d.provider@) + ","@ + json_string(d.endpoint@) + ","@
        + decimal(d.max_output_tokens as nat) + ","@ + (if d.legacy_token_limit { "true"@ } else { "false"@ }) + "]"@)
}

pub fn model_transport_fingerprint(d: &Definition) -> (r: String)
    ensures
        r@ == transport_fingerprint(*d),
{
    let mut out = text("[");
    put_quoted(&mut out, d.provider.as_str());
    put(&mut out, ",");
    put_quoted(&mut out, d.endpoint.as_str());
    put(&mut out, ",");
    put_decimal(&mut out, d.max_output_tokens as u64);
    put(&mut out, ",");
    if d.legacy_token_limit {
        put(&mut out, "true");
    } else {
        put(&mut out, "false");
    }
    put(&mut out, "]");
    digest_text(&out)
}

/// The approval an MCP tool is held to (see `mcp_tool_approval`).
pub open spec fn mcp_approval(tool: McpToolDefinition, server: McpServerDefinition) -> bool {
    match tool.require_approval {
        Some(a) => a,
        None => match server.require_approval {
            Some(a) => a,
            None => tool.effect == Effect::Write,
        },
    }
}

/// A capability's policy, as its id, whether the owner also approves, and
/// whether calls need approval.
pub open spec fn mcp_policies(prefix: Seq<char>, servers: Seq<McpServerDefinition>) -> Seq<(Seq<char>, bool, bool)>
    decreases servers.len(),
{
    if servers.len() == 0 {
        Seq::empty()
    } else {
        mcp_policies(prefix, servers.drop_last()) + servers.last().tools@.map_values(
            |t: McpToolDefinition| (prefix + ":"@ + t.name@, true, mcp_approval(t, servers.last())))
    }
}

/// The policies an agent version's capabilities are guarded by, in the order
/// they are ensured: memory reading (no approval) and writing (approval),
/// the context reader, the skill loader, each MCP tool, delegation to
/// configured children (preauthorized), and each HTTP tool. Each has the
/// owner as its only actor; the memory, MCP and HTTP policies also have the
/// owner as approver.
pub open spec fn capability_policy_list(d: Definition) -> Seq<(Seq<char>, bool, bool)> {
    let tail = d.name@ + ":"@ + decimal(d.version as nat);
    let mem = if d.memory is Some {
        seq![("memory-read:"@ + tail, true, false), ("memory-write:"@ + tail, true, true)]
    } else {
        Seq::empty()
    };
    let ctx = if d.context is Some { seq![("context:"@ + tail, false, false)] } else { Seq::empty() };
    let sk = if d.skills@.len() > 0 || d.loaded_packages@.len() > 0 { seq![("skills"@, false, false)] } else { Seq::empty() };
    let http = d.http_tools@.map_values(|t: HttpToolDefinition| ("http:"@ + tail + ":"@ + t.name@, true, t.require_approval));
    mem + ctx + sk + mcp_policies("mcp:"@ + tail, d.mcp_servers@) + seq![("configured-subagents"@, false, false)] + http
}

/// `p` lets only `actor_id` call, lets `actor_id` approve exactly when
/// `approves`, and needs approval exactly when `require`.
pub open spec fn policy_shape(p: Policy, actor_id: Seq<char>, approves: bool, require: bool) -> bool {
    &&& p.actors@.len() == 1 && p.actors@[0]@ == actor_id
    &&& if approves { p.approvers@.len() == 1 && p.approvers@[0]@ == actor_id } else { p.approvers@.len() == 0 }
    &&& p.require_approval == require
}

pub open spec fn policies_match(r: Seq<(String, Policy)>, actor_id: Seq<char>, l: Seq<(Seq<char>, bool, bool)>) -> bool {
    &&& r.len() == l.len()
    &&& forall|i: int| 0 <= i < r.len() ==> (#[trigger] r[i]).0@ == l[i].0 && policy_shape(r[i].1, actor_id, l[i].1, l[i].2)
}

fn owner_policy(actor: &Actor, approves: bool, require: bool) -> (p: Policy)
    ensures
        policy_shape(p, actor.id@, approves, require),
{
    let approvers = if approves { vec![actor.id.clone()] } else { Vec::new() };
    Policy { actors: vec![actor.id.clone()], approvers, require_approval: require }
}

fn push_policy(out: &mut Vec<(String, Policy)>, id: String, actor: &Actor, approves: bool, require: bool,
    Ghost(l): Ghost<Seq<(Seq<char>, bool, bool)>>)
    requires
        policies_match(old(out)@, actor.id@, l),
    ensures
        policies_match(final(out)@, actor.id@, l.push((id@, approves, require))),
{
    let p = owner_policy(actor, approves, require);
    out.push((id, p));
    proof {
        let l2 = l.push((id@, approves, require));
        assert forall|i: int| 0 <= i < out@.len() implies (#[trigger] out@[i]).0@ == l2[i].0
            && policy_shape(out@[i].1, actor.id@, l2[i].1, l2[i].2) by {
            if i < l.len() {
                assert(out@[i] == old(out)@[i]);
            }
        }
    }
}


fn prefixed(head: &str, tail: &String) -> (r: String)
    ensures
        r@ == head@ + tail@,
{
    let mut r = text(head);
    r.append(tail.as_str());
    r
}

fn suffixed(head: &String, name: &String) -> (r: String)
    ensures
        r@ == head@ + ":"@ + name@,
{
    let mut r = head.clone();
    r.append(":");
    r.append(name.as_str());
    r
}

/// The policies that guard an agent version's capabilities (see
/// `capability_policy_list`), for `actor` as their owner.
pub fn capability_policies(d: &Definition, actor: &Actor) -> (r: Vec<(String, Policy)>)
    ensures
        policies_match(r@, actor.id@, capability_policy_list(*d)),
{
    let mut tail = d.name.clone();
    tail.append(":");
    let v = decimal_text(d.version as u64);
    tail.append(v.as_str());
    let mut out: Vec<(String, Policy)> = Vec::new();
    let ghost mut l: Seq<(Seq<char>, bool, bool)> = Seq::empty();
    proof {
        assert(policies_match(out@, actor.id@, l));
    }
    if d.memory.is_some() {
        push_policy(&mut out, prefixed("memory-read:", &tail), actor, true, false, Ghost(l));
        proof { l = l.push(("memory-read:"@ + tail@, true, false)); }
        push_policy(&mut out, prefixed("memory-write:", &tail), actor, true, true, Ghost(l));
        proof { l = l.push(("memory-write:"@ + tail@, true, true)); }
    }
    if d.context.is_some() {
        push_policy(&mut out, prefixed("context:", &tail), actor, false, false, Ghost(l));
        proof { l = l.push(("context:"@ + tail@, false, false)); }
    }
    if d.skills.len() > 0 || d.loaded_packages.len() > 0 {
        push_policy(&mut out, text("skills"), actor, false, false, Ghost(l));
        proof { l = l.push(("skills"@, false, false)); }
    }
    let ghost base = l;
    let mcp = prefixed("mcp:", &tail);
    let mut k: usize = 0;
    while k < d.mcp_servers.len()
        invariant
            k <= d.mcp_servers@.len(),
            mcp@ == "mcp:"@ + tail@,
            l == base + mcp_policies(mcp@, d.mcp_servers@.take(k as int)),
            policies_match(out@, actor.id@, l),
        decreases d.mcp_servers@.len() - k,
    {
        let server = &d.mcp_servers[k];
        let ghost row = base + mcp_policies(mcp@, d.mcp_servers@.take(k as int));
        let mut j: usize = 0;
        while j < server.tools.len()
            invariant
                j <= server.tools@.len(),
                l == row + server.tools@.take(j as int).map_values(
                    |t: McpToolDefinition| (mcp@ + ":"@ + t.name@, true, mcp_approval(t, *server))),
                policies_match(out@, actor.id@, l),
            decreases server.tools@.len() - j,
        {
            let t = &server.tools[j];
            let approval = mcp_tool_approval(t, server);
            push_policy(&mut out, suffixed(&mcp, &t.name), actor, true, approval, Ghost(l));
            proof {
                l = l.push((mcp@ + ":"@ + t.name@, true, approval));
                assert(server.tools@.take(j as int + 1).map_values(
                    |t: McpToolDefinition| (mcp@ + ":"@ + t.name@, true, mcp_approval(t, *server)))
                    =~= server.tools@.take(j as int).map_values(
                    |t: McpToolDefinition| (mcp@ + ":"@ + t.name@, true, mcp_approval(t, *server)))
                    .push((mcp@ + ":"@ + t.name@, true, approval)));
            }
            j = j + 1;
        }
        proof {
            assert(server.tools@.take(server.tools@.len() as int) =~= server.tools@);
            let taken = d.mcp_servers@.take(k as int + 1);
            assert(taken.drop_last() =~= d.mcp_servers@.take(k as int));
            assert(taken.last() == *server);
            assert(l =~= base + mcp_policies(mcp@, taken));
        }
        k = k + 1;
    }
    proof {
        assert(d.mcp_servers@.take(d.mcp_servers@.len() as int) =~= d.mcp_servers@);
    }
    push_policy(&mut out, text("configured-subagents"), actor, false, false, Ghost(l));
    proof { l = l.push(("configured-subagents"@, false, false)); }
    let ghost before_http = l;
    let http = prefixed("http:", &tail);
    let mut h: usize = 0;
    while h < d.http_tools.len()
        invariant
            h <= d.http_tools@.len(),
            http@ == "http:"@ + tail@,
            l == before_http + d.http_tools@.take(h as int).map_values(
                |t: HttpToolDefinition| ("http:"@ + tail@ + ":"@ + t.name@, true, t.require_approval)),
            policies_match(out@, actor.id@, l),
        decreases d.http_tools@.len() - h,
    {
        let t = &d.http_tools[h];
        push_policy(&mut out, suffixed(&http, &t.name), actor, true, t.require_approval, Ghost(l));
        proof {
            l = l.push((http@ + ":"@ + t.name@, true, t.require_approval));
            assert(d.http_tools@.take(h as int + 1).map_values(
                |t: HttpToolDefinition| ("http:"@ + tail@ + ":"@ + t.name@, true, t.require_approval))
                =~= d.http_tools@.take(h as int).map_values(
                |t: HttpToolDefinition| ("http:"@ + tail@ + ":"@ + t.name@, true, t.require_approval))
                .push((http@ + ":"@ + t.name@, true, t.require_approval)));
        }
        h = h + 1;
    }
    proof {
        assert(d.http_tools@.take(d.http_tools@.len() as int) =~= d.http_tools@);
        assert(l =~= capability_policy_list(*d));
    }
    out
}

} // verus!
