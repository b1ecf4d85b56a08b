use hudson_core::store::Data;
use hudson_core::configured::{
    agent_record, capability_policies, endpoint, http_tool_record, mcp_output_limit, model_transport_fingerprint, mcp_timeout, mcp_tool_approval,
    selected_model, validate_contracts, validate_startup_tree, validate_tree, Definition,
    HttpToolDefinition, McpServerDefinition, McpToolDefinition, SharedBudget,
};
use hudson_core::models::{Actor, AgentTool, Execution, VersionRef};
use hudson_core::context::ContextPolicy;
use hudson_core::coordination::CoordinationPolicy;
use hudson_core::error::Error;
use hudson_core::memory::{MemoryConfig, MemoryScope};
use hudson_core::models::{Effect, Goal, Limits};
use hudson_core::skills::Skill;

fn definition(name: &str) -> Definition {
    Definition {
        name: name.to_string(),
        instructions: "help".to_string(),
        coordination: CoordinationPolicy::default(),
        context: None,
        memory: None,
        allow_user_input: false,
        model: None,
        endpoint: endpoint(),
        provider: String::new(),
        api_key_env: None,
        max_output_tokens: 1024,
        legacy_token_limit: false,
        version: 1,
        skills: Vec::new(),
        skill_files: Vec::new(),
        loaded_packages: Vec::new(),
        mcp_servers: Vec::new(),
        output_schema: None,
        input_schema: None,
        limits: Limits::default(),
        goal: None,
        http_tools: Vec::new(),
        shared_model_budget: None,
        subagents: Vec::new(),
    }
}

fn http_tool(name: &str, endpoint: &str) -> HttpToolDefinition {
    HttpToolDefinition {
        name: name.to_string(),
        description: "custom".to_string(),
        endpoint: endpoint.to_string(),
        input_schema: r#"{"type":"object"}"#.to_string(),
        output_schema: None,
        effect: Effect::Read,
        token_env: None,
        require_approval: false,
    }
}

fn mcp_tool(alias: &str) -> McpToolDefinition {
    McpToolDefinition {
        name: alias.to_string(),
        remote_name: "remote".to_string(),
        description: "tool".to_string(),
        input_schema: r#"{"type":"object"}"#.to_string(),
        effect: Effect::Read,
        require_approval: None,
    }
}

fn mcp_server(endpoint: &str, alias: &str) -> McpServerDefinition {
    McpServerDefinition {
        endpoint: endpoint.to_string(),
        bearer_env: None,
        timeout_seconds: mcp_timeout(),
        max_response_bytes: mcp_output_limit(),
        require_approval: None,
        tools: vec![mcp_tool(alias)],
    }
}

fn message(e: Error) -> String {
    match e {
        Error::Invalid(m) => m,
        other => panic!("unexpected error {:?}", other),
    }
}

#[test]
fn user_input_reserves_its_tool_name_only_when_enabled() {
    let mut config = definition("root");
    config.allow_user_input = true;
    config.http_tools.push(http_tool("ask_user", "http://127.0.0.1:9000/tool"));
    assert!(validate_contracts(&config).is_err());
    config.allow_user_input = false;
    validate_contracts(&config).unwrap();
}

#[test]
fn rejects_duplicate_names_and_child_budget_overrides() {
    let mut root = definition("root");
    root.subagents.push(definition("root"));
    assert!(validate_tree(&root).is_err());
    root.subagents = vec![definition("child")];
    root.subagents[0].shared_model_budget = Some(SharedBudget {
        group: "escape".to_string(),
        limit: 100,
    });
    assert!(validate_tree(&root).is_err());
}

#[test]
fn rejects_invalid_contracts_before_startup() {
    let mut config = definition("root");
    config.output_schema = Some(r#"{"type":"not-a-json-type"}"#.to_string());
    assert!(validate_contracts(&config).is_err());
    config.output_schema = None;
    config.input_schema = Some(r#"{"type":"invalid-type"}"#.to_string());
    assert!(validate_contracts(&config).is_err());
    config.input_schema = None;
    config.shared_model_budget = Some(SharedBudget {
        group: "test".to_string(),
        limit: 0,
    });
    assert!(validate_contracts(&config).is_err());
    config.shared_model_budget = None;
    config.provider = "unsupported".to_string();
    assert!(validate_contracts(&config).is_err());
}

#[test]
fn rejects_excessive_delegation_depth() {
    let mut tree = definition("leaf");
    for index in 0..5 {
        let mut parent = definition(&format!("node-{index}"));
        parent.subagents.push(tree);
        tree = parent;
    }
    assert!(validate_tree(&tree).is_err());
}

#[test]
fn configuration_and_publication_share_limit_validation() {
    for field in 0..6 {
        let mut limits = Limits::default();
        match field {
            0 => limits.max_harness_steps = 0,
            1 => limits.max_model_calls = 0,
            2 => limits.max_operations = 0,
            3 => limits.max_batch_size = 0,
            4 => limits.max_context_bytes = 0,
            _ => limits.max_payload_bytes = 0,
        }
        let mut root = definition("root");
        root.limits = limits;
        assert!(validate_contracts(&root).is_err(), "accepted zero {field}");
        let mut parent = definition("parent");
        parent.subagents.push(root);
        assert!(
            validate_contracts(&parent).is_err(),
            "accepted invalid child {field}"
        );
    }
}

#[test]
fn default_gpt_does_not_reserve_a_model_name_on_other_protocols() {
    let mut config = definition("root");
    assert_eq!(selected_model(&config).unwrap(), "gpt-4.1-mini");
    for provider in ["openai", "anthropic", "gemini", "ollama"] {
        config.provider = provider.to_string();
        config.model = Some("gpt-4.1-mini".to_string());
        assert_eq!(selected_model(&config).unwrap(), "gpt-4.1-mini");
        validate_contracts(&config).unwrap();
        config.model = Some("custom/model-alias:version".to_string());
        assert_eq!(
            selected_model(&config).unwrap(),
            "custom/model-alias:version"
        );
        config.model = Some(" ".to_string());
        assert!(validate_contracts(&config).is_err());
        config.model = None;
        assert_eq!(selected_model(&config).is_ok(), provider == "openai");
    }
}

#[test]
fn mcp_aliases_cannot_shadow_any_enabled_capability() {
    for alias in [
        "ask_user",
        "load_skill",
        "recall_memory",
        "retain_memory",
        "delete_memory",
        "read_context_artifact",
        "delegate_child",
        "join_delegate_child",
        "http_custom",
    ] {
        let mut config = definition("root");
        config.allow_user_input = true;
        config.context = Some(ContextPolicy::default());
        config.memory = Some(MemoryConfig {
            scope: MemoryScope {
                name: "company".to_string(),
            },
            recall_limit: 2,
            retain_pointer: None,
        });
        config.skills.push(Skill {
            name: "analysis".to_string(),
            description: "Analyze".to_string(),
            instructions: "Help".to_string(),
        });
        config
            .http_tools
            .push(http_tool("http_custom", "http://127.0.0.1:9/tool"));
        config.subagents.push(definition("child"));
        config
            .mcp_servers
            .push(mcp_server("http://127.0.0.1:9/mcp", alias));
        assert!(
            validate_contracts(&config).is_err(),
            "allowed alias {alias}"
        );
    }
    let mut config = definition("root");
    config
        .mcp_servers
        .push(mcp_server("http://127.0.0.1:9/mcp", "ask_user"));
    validate_contracts(&config).unwrap(); // Disabled built-in remains available as a custom alias.
    config
        .mcp_servers
        .push(mcp_server("http://127.0.0.1:10/mcp", "ask_user"));
    assert!(validate_contracts(&config).is_err());
}

#[test]
fn tree_errors_name_the_first_rule_broken() {
    let mut root = definition("root");
    root.subagents.push(definition("a"));
    root.subagents.push(definition("b"));
    validate_tree(&root).unwrap();

    let mut dup = definition("root");
    dup.subagents.push(definition("a"));
    dup.subagents.push(definition("a"));
    assert_eq!(
        message(validate_tree(&dup).unwrap_err()),
        "agent names must be unique within the tree"
    );

    let mut goal = definition("root");
    let mut child = definition("child");
    child.goal = Some(Goal {
        objective: "done".to_string(),
        success_schema: r#"{"type":"object"}"#.to_string(),
        criteria: "[]".to_string(),
    });
    goal.subagents.push(child);
    assert_eq!(
        message(validate_tree(&goal).unwrap_err()),
        "child configs inherit the root budget; put child acceptance criteria in output_schema"
    );

    // The root may set its own budget and goal.
    let mut owner = definition("root");
    owner.shared_model_budget = Some(SharedBudget {
        group: "team".to_string(),
        limit: 20,
    });
    validate_tree(&owner).unwrap();

    // Exactly 32 agents pass; a 33rd fails, even with unique names.
    let mut wide = definition("root");
    for index in 0..31 {
        wide.subagents.push(definition(&format!("c{index}")));
    }
    validate_tree(&wide).unwrap();
    wide.subagents.push(definition("c31"));
    assert_eq!(
        message(validate_tree(&wide).unwrap_err()),
        "agent tree exceeds depth 4 or 32 total agents"
    );

    // Depth four is the deepest allowed.
    let mut chain = definition("leaf");
    for index in 0..4 {
        let mut parent = definition(&format!("n{index}"));
        parent.subagents.push(chain);
        chain = parent;
    }
    validate_tree(&chain).unwrap();
    let mut deeper = definition("top");
    deeper.subagents.push(chain);
    assert_eq!(
        message(validate_tree(&deeper).unwrap_err()),
        "agent tree exceeds depth 4 or 32 total agents"
    );
}

#[test]
fn team_roots_need_a_shared_budget_at_startup() {
    let mut root = definition("root");
    validate_startup_tree(&root).unwrap();
    root.subagents.push(definition("child"));
    assert_eq!(
        message(validate_startup_tree(&root).unwrap_err()),
        "subagent trees require shared_model_budget on the root"
    );
    root.shared_model_budget = Some(SharedBudget {
        group: "team".to_string(),
        limit: 20,
    });
    validate_startup_tree(&root).unwrap();
    root.subagents.push(definition("child"));
    assert_eq!(
        message(validate_startup_tree(&root).unwrap_err()),
        "agent names must be unique within the tree"
    );
}

#[test]
fn mcp_approval_defaults_follow_tool_then_server_then_effect() {
    let mut server = mcp_server("http://127.0.0.1:9/mcp", "lookup");
    let mut tool = mcp_tool("lookup");
    assert!(!mcp_tool_approval(&tool, &server));
    tool.effect = Effect::Write;
    assert!(mcp_tool_approval(&tool, &server));
    server.require_approval = Some(false);
    assert!(!mcp_tool_approval(&tool, &server));
    tool.require_approval = Some(true);
    assert!(mcp_tool_approval(&tool, &server));
}

#[test]
fn http_tools_publish_under_the_agent_version() {
    let actor = Actor {
        workspace_id: "company".to_string(),
        id: "owner".to_string(),
    };
    let mut spec = http_tool("lookup", "http://127.0.0.1:9/tool");
    spec.require_approval = true;
    spec.token_env = Some("CRM_TOKEN".to_string());
    let (tool, policy) = http_tool_record(&"root".to_string(), 3, &actor, &spec);
    assert_eq!(tool.id, "root:lookup");
    assert_eq!(tool.workspace_id, "company");
    assert_eq!(tool.version, 3);
    assert_eq!(tool.name, "lookup");
    assert_eq!(tool.policy_ref, "http:root:3:lookup");
    assert_eq!(tool.credential_ref, Some("CRM_TOKEN".to_string()));
    assert_eq!(
        tool.execution,
        Execution::Http {
            endpoint: "http://127.0.0.1:9/tool".to_string()
        }
    );
    assert_eq!(tool.created_at, 0);
    assert_eq!(policy.actors, vec!["owner".to_string()]);
    assert_eq!(policy.approvers, vec!["owner".to_string()]);
    assert!(policy.require_approval);
}

#[test]
fn deferred_team_roots_learn_how_delegation_works() {
    let actor = Actor {
        workspace_id: "company".to_string(),
        id: "owner".to_string(),
    };
    let mut root = definition("root");
    let bindings = vec![AgentTool {
        tool_ref: VersionRef {
            id: "root:lookup".to_string(),
            version: 1,
        },
        alias: "lookup".to_string(),
    }];
    let single = agent_record(&root, &actor, "gpt-4.1-mini".to_string(), bindings.clone(), true);
    assert_eq!(single.instructions, "help");
    assert_eq!(single.id, "root");
    assert_eq!(single.model, "gpt-4.1-mini");
    assert_eq!(single.tools, bindings);
    root.subagents.push(definition("child"));
    let eager = agent_record(&root, &actor, "gpt-4.1-mini".to_string(), Vec::new(), false);
    assert_eq!(eager.instructions, "help");
    let deferred = agent_record(&root, &actor, "gpt-4.1-mini".to_string(), Vec::new(), true);
    assert!(deferred.instructions.starts_with("help\n\nDelegation submits durable child runs."));
    assert!(deferred
        .instructions
        .ends_with("Do not claim success without inspecting each child result."));
}

#[test]
fn model_transport_fingerprints_pin_provider_endpoint_and_token_limits() {
    let mut config = definition("root");
    let first = model_transport_fingerprint(&config);
    assert_eq!(first.len(), 64);
    assert!(first.chars().all(|c| c.is_ascii_hexdigit()));
    assert_eq!(first, model_transport_fingerprint(&definition("other")));
    config.provider = "ollama".to_string();
    let second = model_transport_fingerprint(&config);
    assert_ne!(first, second);
    config.legacy_token_limit = true;
    assert_ne!(second, model_transport_fingerprint(&config));
    config.legacy_token_limit = false;
    config.max_output_tokens = 2048;
    assert_ne!(second, model_transport_fingerprint(&config));
}

#[test]
fn capability_policies_require_approval_for_writes_and_preauthorize_delegation() {
    let owner = Actor { workspace_id: "company".to_string(), id: "owner".to_string() };
    let mut d = definition("root");
    d.version = 2;
    d.memory = Some(MemoryConfig { scope: MemoryScope { name: "company".to_string() }, recall_limit: 2, retain_pointer: None });
    d.context = Some(ContextPolicy::default());
    d.skills.push(Skill { name: "analysis".to_string(), description: "Analyze".to_string(), instructions: "Help".to_string() });
    let mut server = mcp_server("http://127.0.0.1:9/mcp", "lookup");
    let mut write = mcp_tool("update");
    write.effect = Effect::Write;
    server.tools.push(write);
    d.mcp_servers.push(server);
    let mut http = http_tool("notify", "http://127.0.0.1:9/tool");
    http.require_approval = true;
    d.http_tools.push(http);
    let list = capability_policies(&d, &owner);
    let ids: Vec<&str> = list.iter().map(|(id, _)| id.as_str()).collect();
    assert_eq!(ids, vec![
        "memory-read:root:2", "memory-write:root:2", "context:root:2", "skills",
        "mcp:root:2:lookup", "mcp:root:2:update", "configured-subagents", "http:root:2:notify",
    ]);
    let approvals: Vec<bool> = list.iter().map(|(_, p)| p.require_approval).collect();
    assert_eq!(approvals, vec![false, true, false, false, false, true, false, true]);
    let approvers: Vec<usize> = list.iter().map(|(_, p)| p.approvers.len()).collect();
    assert_eq!(approvers, vec![1, 1, 0, 0, 1, 1, 0, 1]);
    assert!(list.iter().all(|(_, p)| p.actors == vec!["owner".to_string()]));
    let plain = capability_policies(&definition("solo"), &owner);
    assert_eq!(plain.len(), 1);
    assert_eq!(plain[0].0, "configured-subagents");
}

fn actor() -> Actor {
    Actor { workspace_id: "acme".to_string(), id: "svc".to_string() }
}

#[test]
fn publishing_an_agent_stores_its_policies_tools_and_record() {
    let mut d = Data::new();
    let mut config = definition("root");
    config.http_tools = vec![http_tool("lookup", "http://127.0.0.1:9/lookup")];
    let reference = hudson_core::publishing::publish_agent(&mut d, &actor(), &config, Vec::new(), false).unwrap();
    assert_eq!(reference, VersionRef { id: "root".to_string(), version: 1 });
    assert_eq!(d.agents.len(), 1);
    assert_eq!(d.agents[0].tools.len(), 1);
    assert_eq!(d.tools.len(), 1);
    assert_eq!(d.policies.len(), capability_policies(&config, &actor()).len());
    // Publishing the same definition again is accepted and adds nothing.
    hudson_core::publishing::publish_agent(&mut d, &actor(), &config, Vec::new(), false).unwrap();
    assert_eq!(d.agents.len(), 1);
    assert_eq!(d.tools.len(), 1);
}

#[test]
fn a_configuration_publishes_whole_and_reads_back() {
    let mut d = Data::new();
    let mut config = definition("root");
    config.subagents = vec![definition("helper")];
    let frozen = "{\"definition\":{\"name\":\"root\"}}".to_string();
    let receipt = hudson_core::publishing::publish_configuration(&mut d, &actor(), &config, frozen.clone(), "first").unwrap();
    assert_eq!(receipt.agent_ref, VersionRef { id: "root".to_string(), version: 1 });
    assert_eq!(d.agents.len(), 2);
    assert_eq!(hudson_core::publication::published_configuration(&d, &actor(), &receipt.agent_ref), Ok(frozen.clone()));
    let again = hudson_core::publishing::publish_configuration(&mut d, &actor(), &config, frozen.clone(), "first").unwrap();
    assert_eq!(again, receipt);
    let stranger = Actor { workspace_id: "acme".to_string(), id: "other".to_string() };
    assert_eq!(hudson_core::publication::published_configuration(&d, &stranger, &receipt.agent_ref), Err(Error::NotFound));
    // A failed publication leaves every definition table as it was.
    let mut broken = definition("second");
    broken.subagents = vec![Definition { instructions: " ".to_string(), ..definition("bad") }];
    let before = (d.agents.len(), d.tools.len(), d.policies.len());
    assert!(hudson_core::publishing::publish_configuration(&mut d, &actor(), &broken, "{}".to_string(), "second").is_err());
    assert_eq!((d.agents.len(), d.tools.len(), d.policies.len()), before);
    assert_eq!(d.publications.len(), 1);
}
