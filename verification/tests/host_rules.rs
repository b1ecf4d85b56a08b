use hudson_core::evaluation::assess_case;
use hudson_core::models::RunStatus;
use hudson_core::cli::{route, segment, Command, Method, Start};
use hudson_core::criteria::validate_pointer;
use hudson_core::evaluation::{validate_cases, Case, CriterionCheck};
use hudson_core::customer::{customer_tool, publish_customer_tool, EffectiveTransport, ToolDefinition, agent_limits, effective_policy, name, root_budget, ConnectionTransport, HostCatalog,
    ModelProfile, Reference, ToolConnection};
use hudson_core::models::{Actor, Effect, Limits};
use hudson_core::store::Data;
use hudson_core::Error;

fn owner() -> Actor {
    Actor { workspace_id: "company".to_string(), id: "owner".to_string() }
}

fn reference(id: &str, version: u32) -> Reference {
    Reference { id: id.to_string(), version }
}

fn connection(effect: Effect, require_approval: bool) -> ToolConnection {
    ToolConnection {
        reference: reference("crm", 1),
        transport: ConnectionTransport::Http { endpoint: "http://127.0.0.1:9/tool".to_string(), token_env: None },
        effect,
        require_approval,
    }
}

fn catalog() -> HostCatalog {
    HostCatalog {
        owner: owner(),
        models: vec![ModelProfile {
            reference: reference("standard", 1),
            provider: "openai".to_string(),
            model: "fixture".to_string(),
            endpoint: "http://127.0.0.1:9/model".to_string(),
            api_key_env: None,
            max_output_tokens: 1024,
        }],
        connections: vec![connection(Effect::Write, true)],
        limits: Limits::default(),
        max_total_model_calls: 2,
    }
}

#[test]
fn tool_policy_floors_cannot_be_weakened() {
    let writing = connection(Effect::Write, true);
    assert_eq!(effective_policy(&writing, None, None), Ok((Effect::Write, true)));
    assert_eq!(effective_policy(&writing, Some(Effect::Read), None), Err(Error::Denied));
    assert_eq!(effective_policy(&writing, None, Some(false)), Err(Error::Denied));
    let reading = connection(Effect::Read, false);
    assert_eq!(effective_policy(&reading, Some(Effect::Write), Some(true)), Ok((Effect::Write, true)));
    assert_eq!(effective_policy(&reading, None, None), Ok((Effect::Read, false)));
}

#[test]
fn agent_limits_stay_under_the_installation_ceiling() {
    let c = catalog();
    assert_eq!(agent_limits(&c, None), Ok(Limits::default()));
    let lower = Limits { max_model_calls: 2, ..Limits::default() };
    assert_eq!(agent_limits(&c, Some(&lower)), Ok(lower.clone()));
    let higher = Limits { max_model_calls: 9, ..Limits::default() };
    assert_eq!(agent_limits(&c, Some(&higher)), Err(Error::Denied));
    let zero = Limits { max_operations: 0, ..Limits::default() };
    assert!(matches!(agent_limits(&c, Some(&zero)), Err(Error::Invalid(_))));
    assert_eq!(root_budget(&c, None), Ok(2));
    assert_eq!(root_budget(&c, Some(1)), Ok(1));
    assert_eq!(root_budget(&c, Some(3)), Err(Error::Denied));
    assert_eq!(root_budget(&c, Some(0)), Err(Error::Denied));
}

#[test]
fn only_the_catalog_owner_is_authorized() {
    let c = catalog();
    assert_eq!(c.authorize(&owner()), Ok(()));
    let other = Actor { workspace_id: "company".to_string(), id: "other".to_string() };
    assert_eq!(c.authorize(&other), Err(Error::Denied));
    assert!(c.check_bounds().is_ok());
    let empty = HostCatalog { models: vec![], ..catalog() };
    assert!(matches!(empty.check_bounds(), Err(Error::Invalid(_))));
}

#[test]
fn names_and_references_are_validated() {
    assert!(name("crm_v2-x").is_ok());
    assert!(matches!(name(""), Err(Error::Invalid(_))));
    assert!(matches!(name("has space"), Err(Error::Invalid(_))));
    assert!(matches!(name(&"a".repeat(65)), Err(Error::Invalid(_))));
    assert!(matches!(reference("crm", 0).validate(), Err(Error::Invalid(_))));
    let v = reference("crm", 3).version_ref();
    assert_eq!((v.id.as_str(), v.version), ("crm", 3));
}

const MODEL: &str = "{\"reference\":{\"id\":\"standard\",\"version\":1},\"model\":\"fixture\"}";

fn install(c: &HostCatalog, d: &mut Data, actor: &Actor, model: &str) -> Result<(), Error> {
    c.install(d, actor, &vec![model.to_string()], &vec![CRM.to_string()])
}

#[test]
fn capability_versions_are_atomic_immutable_and_owner_bound() {
    let mut d = Data::new();
    let catalog = catalog();
    let actor = catalog.owner.clone();
    install(&catalog, &mut d, &actor, MODEL).unwrap();
    assert_eq!(d.customer_registry.len(), 2);
    let mut changed = catalog.clone_parts();
    changed.models[0].model = "changed".to_string();
    assert!(install(&changed, &mut d, &actor, "{\"model\":\"changed\"}").is_err());
    let mut other = actor.clone();
    other.workspace_id = "other".to_string();
    assert!(install(&catalog, &mut d, &other, MODEL).is_err());
    assert!(publish_customer_tool(&mut d, &other, &catalog, lookup(), "one", &CRM.to_string()).is_err());
    assert_eq!(d.customer_registry.len(), 2);
    assert!(d.customer_tools.is_empty() && d.customer_tool_keys.is_empty());
    let summary = catalog.capabilities(&actor).unwrap();
    assert_eq!(summary.models[0].model, "fixture");
    assert_eq!(summary.connections[0].reference, reference("crm", 1));
}

#[test]
fn catalog_installs_are_whole_or_nothing() {
    let mut d = Data::new();
    let c = catalog();
    // Installing the same versions again is accepted.
    install(&c, &mut d, &owner(), MODEL).unwrap();
    install(&c, &mut d, &owner(), MODEL).unwrap();
    assert_eq!(d.customer_registry.len(), 2);
    // A catalog that adds a model but changes the installed connection is refused whole.
    let mut grown = c.clone_parts();
    grown.models.push(ModelProfile {
        reference: reference("fresh", 1),
        provider: "openai".to_string(),
        model: "fixture".to_string(),
        endpoint: "http://127.0.0.1:9/model".to_string(),
        api_key_env: None,
        max_output_tokens: 1024,
    });
    assert!(matches!(
        grown.install(&mut d, &owner(), &vec![MODEL.to_string(), "{}".to_string()], &vec!["{\"b\":3}".to_string()]),
        Err(Error::Conflict(_))
    ));
    assert_eq!(d.customer_registry.len(), 2);
    // Two models with one reference are refused.
    let mut twice = c.clone_parts();
    twice.models.push(ModelProfile { reference: reference("standard", 1), ..grown.models.pop().unwrap() });
    assert!(matches!(
        twice.install(&mut d, &owner(), &vec![MODEL.to_string(), "{\"x\":1}".to_string()], &vec![CRM.to_string()]),
        Err(Error::Invalid(_))
    ));
    // Bounds and references are checked before anything is installed.
    let mut empty = c.clone_parts();
    empty.models.clear();
    assert!(matches!(empty.install(&mut d, &owner(), &vec![], &vec![CRM.to_string()]), Err(Error::Invalid(_))));
    let mut unnamed = c.clone_parts();
    unnamed.connections[0].reference = reference("has space", 1);
    assert!(matches!(install(&unnamed, &mut d, &owner(), MODEL), Err(Error::Invalid(_))));
    assert_eq!(d.customer_registry.len(), 2);
}

trait CloneParts {
    fn clone_parts(&self) -> HostCatalog;
}

impl CloneParts for HostCatalog {
    fn clone_parts(&self) -> HostCatalog {
        HostCatalog {
            owner: self.owner.clone(),
            models: self
                .models
                .iter()
                .map(|m| ModelProfile {
                    reference: m.reference.clone(),
                    provider: m.provider.clone(),
                    model: m.model.clone(),
                    endpoint: m.endpoint.clone(),
                    api_key_env: m.api_key_env.clone(),
                    max_output_tokens: m.max_output_tokens,
                })
                .collect(),
            connections: self
                .connections
                .iter()
                .map(|c| ToolConnection {
                    reference: c.reference.clone(),
                    transport: match &c.transport {
                        ConnectionTransport::Http { endpoint, token_env } => {
                            ConnectionTransport::Http { endpoint: endpoint.clone(), token_env: token_env.clone() }
                        }
                        ConnectionTransport::Mcp { endpoint, bearer_env, remote_name } => ConnectionTransport::Mcp {
                            endpoint: endpoint.clone(),
                            bearer_env: bearer_env.clone(),
                            remote_name: remote_name.clone(),
                        },
                    },
                    effect: c.effect,
                    require_approval: c.require_approval,
                })
                .collect(),
            limits: self.limits.clone(),
            max_total_model_calls: self.max_total_model_calls,
        }
    }
}

#[test]
fn shared_model_budgets_admit_up_to_their_limit() {
    let mut d = Data::new();
    d.open_model_budget("company", "team", 2).unwrap();
    d.open_model_budget("company", "team", 2).unwrap();
    assert!(matches!(d.open_model_budget("company", "team", 3), Err(Error::Conflict(_))));
    assert!(matches!(d.open_model_budget("company", "team", 0), Err(Error::Invalid(_))));
    d.admit_model_call("company", "team").unwrap();
    d.admit_model_call("company", "team").unwrap();
    assert!(matches!(d.admit_model_call("company", "team"), Err(Error::Invalid(_))));
    let usage = d.model_budget_usage("company", "team").unwrap();
    assert_eq!((usage.admitted, usage.limit), (2, 2));
    assert_eq!(d.admit_model_call("company", "none"), Err(Error::NotFound));
    assert_eq!(d.model_budget_usage("company", "none").err(), Some(Error::NotFound));
}

fn start() -> Start {
    Start { agent: None, agent_version: None, task: Some("hi".to_string()), input_file: None, order: None, refund: false, request_key: None }
}

#[test]
fn commands_route_to_their_paths() {
    assert_eq!(route(&Command::Health).unwrap(), (Method::Get, "/health".to_string()));
    assert_eq!(route(&Command::Start(start())).unwrap(), (Method::Post, "/runs".to_string()));
    assert_eq!(route(&Command::Get { run_id: "ab-12".to_string() }).unwrap(), (Method::Get, "/runs/ab-12".to_string()));
    assert_eq!(route(&Command::Events { run_id: "ab".to_string(), after: 42 }).unwrap(), (Method::Get, "/runs/ab/events?after=42".to_string()));
    assert_eq!(route(&Command::Approve { operation_id: "0f".to_string(), deny: true }).unwrap(), (Method::Post, "/operations/0f/approval".to_string()));
    assert_eq!(route(&Command::Cancel { run_id: "1".to_string() }).unwrap(), (Method::Post, "/runs/1/cancel".to_string()));
    assert!(matches!(route(&Command::Get { run_id: "../x".to_string() }), Err(Error::Invalid(_))));
    assert!(matches!(route(&Command::Capabilities), Err(Error::Unsupported(_))));
    assert!(segment("").is_err());
    assert_eq!(segment("DEAD-beef"), Ok("DEAD-beef"));
}

#[test]
fn criteria_pointers_escape_only_zero_and_one() {
    assert!(validate_pointer("").is_ok());
    assert!(validate_pointer("/a~1b/~0").is_ok());
    assert!(matches!(validate_pointer("/bad~2"), Err(Error::Invalid(_))));
    assert!(matches!(validate_pointer("/end~"), Err(Error::Invalid(_))));
    assert!(matches!(validate_pointer("total"), Err(Error::Invalid(_))));
}

fn case(name: &str, schema: &str, criteria: Vec<CriterionCheck>) -> Case {
    Case { name: name.to_string(), input: "{}".to_string(), expected_schema: schema.to_string(), criteria }
}

#[test]
fn evaluation_suites_need_named_unique_well_formed_cases() {
    let object = "{\"type\":\"object\"}";
    assert!(validate_cases(&[case("a", object, vec![]), case("b", object, vec![])]).is_ok());
    assert!(matches!(validate_cases(&[]), Err(Error::Invalid(_))));
    assert!(matches!(validate_cases(&[case("a", object, vec![]), case("a", object, vec![])]), Err(Error::Invalid(_))));
    assert!(matches!(validate_cases(&[case(" ", object, vec![])]), Err(Error::Invalid(_))));
    assert!(matches!(validate_cases(&[case(&"n".repeat(257), object, vec![])]), Err(Error::Invalid(_))));
    assert!(matches!(validate_cases(&[case("a", "{\"type\":\"not-a-json-type\"}", vec![])]), Err(Error::Invalid(_))));
    let pointer = |p: &str, ok: bool| CriterionCheck { pointer: p.to_string(), range_valid: ok };
    assert!(validate_cases(&[case("a", object, vec![pointer("/total", true)])]).is_ok());
    assert!(matches!(validate_cases(&[case("a", object, vec![pointer("/total", false)])]), Err(Error::Invalid(_))));
    assert!(matches!(validate_cases(&[case("a", object, vec![pointer("total", true)])]), Err(Error::Invalid(_))));
    let many: Vec<Case> = (0..101).map(|i| case(&format!("c{i}"), object, vec![])).collect();
    assert!(matches!(validate_cases(&many), Err(Error::Invalid(_))));
}

fn definition(output: Option<&str>, effect: Option<Effect>, approval: Option<bool>) -> ToolDefinition {
    ToolDefinition {
        name: "lookup".to_string(),
        version: 1,
        description: "Look up a listing".to_string(),
        connection: reference("crm", 1),
        input_schema: "{\"type\":\"object\"}".to_string(),
        output_schema: output.map(str::to_string),
        effect,
        require_approval: approval,
    }
}

#[test]
fn customer_tools_compile_against_their_connection_floors() {
    let http = connection(Effect::Write, true);
    let e = http.compile(&definition(Some("{\"type\":\"object\"}"), None, None)).unwrap();
    assert_eq!((e.effect, e.require_approval), (Effect::Write, true));
    match e.transport {
        EffectiveTransport::Http { endpoint, token_env, output_schema } => {
            assert_eq!(endpoint, "http://127.0.0.1:9/tool");
            assert_eq!(token_env, None);
            assert_eq!(output_schema.as_deref(), Some("{\"type\":\"object\"}"));
        }
        _ => panic!("expected an HTTP tool"),
    }
    assert_eq!(http.compile(&definition(None, Some(Effect::Read), None)).err(), Some(Error::Denied));
    assert_eq!(http.compile(&definition(None, None, Some(false))).err(), Some(Error::Denied));
    let mcp = ToolConnection {
        transport: ConnectionTransport::Mcp { endpoint: "http://127.0.0.1:9/mcp".to_string(), bearer_env: None, remote_name: "remote".to_string() },
        ..connection(Effect::Read, false)
    };
    assert!(matches!(mcp.compile(&definition(Some("{}"), None, None)), Err(Error::Unsupported(_))));
    let m = mcp.compile(&definition(None, None, None)).unwrap();
    assert_eq!((m.effect, m.require_approval), (Effect::Read, false));
    let blank = ToolDefinition { description: " ".to_string(), ..definition(None, None, None) };
    assert!(matches!(mcp.compile(&blank), Err(Error::Invalid(_))));
    let unversioned = ToolDefinition { version: 0, ..definition(None, None, None) };
    assert!(matches!(mcp.compile(&unversioned), Err(Error::Invalid(_))));
}

#[test]
fn catalog_descriptions_show_references_and_floors_only() {
    let c = catalog();
    let stranger = Actor { workspace_id: "company".to_string(), id: "guest".to_string() };
    assert!(matches!(c.capabilities(&stranger), Err(Error::Denied)));
    let summary = c.capabilities(&owner()).unwrap();
    assert_eq!(summary.models.len(), 1);
    assert_eq!(summary.models[0].reference, reference("standard", 1));
    assert_eq!(summary.models[0].provider, "openai");
    assert_eq!(summary.models[0].model, "fixture");
    assert_eq!(summary.connections.len(), 1);
    assert_eq!(summary.connections[0].reference, reference("crm", 1));
    assert_eq!(summary.connections[0].effect, Effect::Write);
    assert!(summary.connections[0].require_approval);
    assert_eq!(summary.limits, Limits::default());
    assert_eq!(summary.max_total_model_calls, 2);
}

const CRM: &str = "{\"reference\":{\"id\":\"crm\",\"version\":1},\"transport\":{\"type\":\"http\"}}";

fn lookup() -> ToolDefinition {
    ToolDefinition {
        name: "lookup".to_string(),
        version: 1,
        description: "Lookup a customer".to_string(),
        connection: reference("crm", 1),
        input_schema: "{\"type\":\"object\"}".to_string(),
        output_schema: None,
        effect: None,
        require_approval: None,
    }
}

#[test]
fn customer_tools_keep_floors_retries_and_revisions() {
    let c = catalog();
    let mut d = Data::new();
    install(&catalog(), &mut d, &owner(), MODEL).unwrap();
    // The connection writes and needs approval: a tool cannot relax either.
    let mut denied = lookup();
    denied.effect = Some(Effect::Read);
    assert_eq!(publish_customer_tool(&mut d, &owner(), &c, denied, "read", &CRM.to_string()), Err(Error::Denied));
    let mut denied = lookup();
    denied.require_approval = Some(false);
    assert_eq!(publish_customer_tool(&mut d, &owner(), &c, denied, "approval", &CRM.to_string()), Err(Error::Denied));
    assert!(d.customer_tools.is_empty() && d.customer_tool_keys.is_empty());
    // Publishing again, by key or by version, returns the first receipt.
    let first = publish_customer_tool(&mut d, &owner(), &c, lookup(), "tool", &CRM.to_string()).unwrap();
    assert_eq!(first.reference, reference("lookup", 1));
    assert_eq!(first.digest.len(), 64);
    assert!(first.digest.chars().all(|ch| ch.is_ascii_hexdigit()));
    let again = publish_customer_tool(&mut d, &owner(), &c, lookup(), "tool", &CRM.to_string()).unwrap();
    assert_eq!(again, first);
    let other_key = publish_customer_tool(&mut d, &owner(), &c, lookup(), "tool-again", &CRM.to_string()).unwrap();
    assert_eq!(other_key, first);
    assert_eq!(d.customer_tools.len(), 1);
    // A published revision is immutable, under any key.
    let mut changed = lookup();
    changed.description = "changed".to_string();
    assert!(matches!(
        publish_customer_tool(&mut d, &owner(), &c, changed, "different-key", &CRM.to_string()),
        Err(Error::Conflict(_))
    ));
    // A key answered once stays bound to its tool.
    let mut next = lookup();
    next.version = 2;
    assert!(matches!(
        publish_customer_tool(&mut d, &owner(), &c, next, "tool", &CRM.to_string()),
        Err(Error::Conflict(_))
    ));
    assert_eq!(customer_tool(&d, &owner(), &reference("lookup", 1)), Ok(lookup()));
    assert_eq!(customer_tool(&d, &owner(), &reference("lookup", 2)), Err(Error::NotFound));
    // A new version gets its own digest.
    let mut second = lookup();
    second.version = 2;
    let receipt = publish_customer_tool(&mut d, &owner(), &c, second, "tool-2", &CRM.to_string()).unwrap();
    assert_ne!(receipt.digest, first.digest);
}

#[test]
fn customer_tools_need_an_installed_connection_of_the_owner() {
    let c = catalog();
    let mut d = Data::new();
    let stranger = Actor { workspace_id: "company".to_string(), id: "guest".to_string() };
    assert_eq!(publish_customer_tool(&mut d, &stranger, &c, lookup(), "k", &CRM.to_string()), Err(Error::Denied));
    assert!(matches!(publish_customer_tool(&mut d, &owner(), &c, lookup(), "", &CRM.to_string()), Err(Error::Invalid(_))));
    let mut unnamed = lookup();
    unnamed.name = "has space".to_string();
    assert!(matches!(publish_customer_tool(&mut d, &owner(), &c, unnamed, "k", &CRM.to_string()), Err(Error::Invalid(_))));
    // Not installed yet.
    assert_eq!(publish_customer_tool(&mut d, &owner(), &c, lookup(), "k", &CRM.to_string()), Err(Error::NotFound));
    install(&catalog(), &mut d, &owner(), MODEL).unwrap();
    // Installed with other content than the catalog's connection now has.
    assert!(matches!(
        publish_customer_tool(&mut d, &owner(), &c, lookup(), "k", &"{}".to_string()),
        Err(Error::Conflict(_))
    ));
    let mut elsewhere = lookup();
    elsewhere.connection = reference("billing", 1);
    assert_eq!(publish_customer_tool(&mut d, &owner(), &c, elsewhere, "k", &CRM.to_string()), Err(Error::NotFound));
    let mut blank = lookup();
    blank.description = " ".to_string();
    assert!(matches!(publish_customer_tool(&mut d, &owner(), &c, blank, "k", &CRM.to_string()), Err(Error::Invalid(_))));
    assert!(d.customer_tools.is_empty());
    publish_customer_tool(&mut d, &owner(), &c, lookup(), "k", &CRM.to_string()).unwrap();
}

#[test]
fn tool_policy_floors_and_agent_ceiling_cannot_be_weakened() {
    let c = catalog();
    let mut d = Data::new();
    install(&catalog(), &mut d, &owner(), MODEL).unwrap();
    let mut denied = lookup();
    denied.effect = Some(Effect::Read);
    assert_eq!(publish_customer_tool(&mut d, &owner(), &c, denied, "read", &CRM.to_string()), Err(Error::Denied));
    let mut denied = lookup();
    denied.require_approval = Some(false);
    assert_eq!(publish_customer_tool(&mut d, &owner(), &c, denied, "approval", &CRM.to_string()), Err(Error::Denied));
    assert!(d.customer_tools.is_empty() && d.customer_tool_keys.is_empty());
    let receipt = publish_customer_tool(&mut d, &owner(), &c, lookup(), "tool", &CRM.to_string()).unwrap();
    assert_eq!(receipt, publish_customer_tool(&mut d, &owner(), &c, lookup(), "tool", &CRM.to_string()).unwrap());
    let mut changed = lookup();
    changed.description = "changed".to_string();
    assert!(publish_customer_tool(&mut d, &owner(), &c, changed, "different-key", &CRM.to_string()).is_err());
    let over = Limits { max_model_calls: c.limits.max_model_calls + 1, ..c.limits.clone() };
    assert_eq!(agent_limits(&c, Some(&over)), Err(Error::Denied));
}

fn observation(status: hudson_core::models::RunStatus, result: Option<&str>) -> hudson_core::evaluation::CaseObservation {
    hudson_core::evaluation::CaseObservation {
        error: None,
        status,
        assessment_passed: true,
        result: result.map(str::to_string),
        failed_criterion: None,
    }
}

#[test]
fn evaluation_cases_are_judged_by_status_schema_and_criteria() {
    let c = case("a", "{\"type\":\"object\",\"required\":[\"ok\"]}", Vec::new());
    assert_eq!(assess_case(&c, &observation(RunStatus::Completed, Some("{\"ok\":1}"))), Ok(()));
    assert_eq!(assess_case(&c, &observation(RunStatus::Waiting, None)), Err("run did not complete: Waiting".to_string()));
    assert_eq!(assess_case(&c, &observation(RunStatus::Completed, None)), Err("completed run has no result".to_string()));
    assert_eq!(assess_case(&c, &observation(RunStatus::Completed, Some("{}"))), Err("invalid: schema validation failed".to_string()));
    let mut failed = observation(RunStatus::Completed, Some("{\"ok\":1}"));
    failed.failed_criterion = Some(1);
    assert_eq!(assess_case(&c, &failed), Err("held-out criterion 2 failed".to_string()));
    let mut unverified = observation(RunStatus::Completed, Some("{\"ok\":1}"));
    unverified.assessment_passed = false;
    assert_eq!(assess_case(&c, &unverified), Err("runtime verification did not pass".to_string()));
    let mut broken = observation(RunStatus::Running, None);
    broken.error = Some("model unavailable".to_string());
    assert_eq!(assess_case(&c, &broken), Err("model unavailable".to_string()));
}
