use sha2::Digest;
use hudson_core::budgets::BudgetedModel;
use hudson_core::credentials::{authenticate_at, issue_api_token_with};
use hudson_core::definitions::{loop_tools, publish_agent, publish_tool};
use hudson_core::models::{Actor, Agent, AgentTool, Effect, Execution, Limits, Tool, VersionRef, SCHEMA_VERSION};
use hudson_core::primitives::{draw_id, new_id};
use hudson_core::skills::{package_from_markdown, Skill, SkillCatalog, SkillPackage, SkillResource};
use hudson_core::store::Data;
use hudson_core::Error;

fn actor() -> Actor {
    Actor { workspace_id: "acme".to_string(), id: "svc".to_string() }
}

fn is_v4(id: u128) -> bool {
    (id >> 76) & 0xf == 4 && (id >> 62) & 0x3 == 2
}

#[test]
fn identifiers_have_the_version_4_layout() {
    let a = new_id();
    let b = new_id();
    assert!(is_v4(a) && is_v4(b));
    assert_ne!(a, b);
    assert!(is_v4(draw_id().unwrap()));
}

#[test]
fn issued_tokens_are_exactly_the_drawn_identity_and_secret() {
    let mut d = Data::new();
    let secret: Vec<u8> = (0u8..32).collect();
    let id: u128 = 0x0123456789abcdef0123456789abcdef;
    let t = issue_api_token_with(&mut d, actor(), "ci".to_string(), 100, 10, id, secret.clone()).unwrap();
    let hex: String = secret.iter().map(|b| format!("{b:02x}")).collect();
    assert_eq!(t.bearer(), format!("hudson_0123456789abcdef0123456789abcdef.{hex}"));
    assert_eq!(t.metadata().id, id);
    assert_eq!(t.metadata().created_at, 10);
    assert_eq!(authenticate_at(&d, t.bearer(), 99), Ok(actor()));
    assert_eq!(authenticate_at(&d, t.bearer(), 100), Err(Error::Denied));
    // The same identifier conflicts; an expiry not after the issue time is invalid.
    assert!(matches!(
        issue_api_token_with(&mut d, actor(), "ci".to_string(), 100, 10, id, secret.clone()),
        Err(Error::Conflict(_))
    ));
    assert!(matches!(
        issue_api_token_with(&mut d, actor(), "ci".to_string(), 10, 10, id + 1, secret.clone()),
        Err(Error::Invalid(_))
    ));
    assert!(matches!(
        issue_api_token_with(&mut d, actor(), " ".to_string(), 100, 10, id + 1, secret),
        Err(Error::Invalid(_))
    ));
    assert_eq!(d.api_tokens.len(), 1);
}

fn skill(name: &str, instructions: &str) -> Skill {
    Skill { name: name.to_string(), description: format!("About {name}"), instructions: instructions.to_string() }
}

#[test]
fn catalog_errors_follow_the_order_of_the_skills() {
    // A repeated name comes before an invalid skill: the repetition decides.
    let r = SkillCatalog::new(vec![skill("a", "x"), skill("a", "y"), skill("b", "")]);
    assert!(matches!(r, Err(Error::Conflict(_))));
    // An invalid skill comes first: it decides.
    let r = SkillCatalog::new(vec![skill("a", "x"), skill("b", ""), skill("a", "y")]);
    assert!(matches!(r, Err(Error::Invalid(_))));
}

#[test]
fn package_resources_stay_with_their_skill() {
    let package = SkillPackage {
        skill: skill("report", "Write the report"),
        resources: vec![SkillResource { path: "references/a.md".to_string(), contents: "A".to_string() }],
    };
    let c = SkillCatalog::with_packages(vec![skill("plain", "Do it")], vec![package]).unwrap();
    let resources = c.resources();
    assert_eq!(resources.len(), 1);
    assert_eq!(resources[0].0, "report");
    assert_eq!(resources[0].1.len(), 1);
    assert_eq!(resources[0].1[0].path, "references/a.md");
    assert_eq!(resources[0].1[0].contents, "A");
    assert!(SkillCatalog::new(vec![skill("plain", "Do it")]).unwrap().resources().is_empty());
}

#[test]
fn packages_read_their_name_and_description_from_yaml() {
    let md = "---\nname: report\ndescription: Write reports\n---\nUse the template.\n";
    let p = package_from_markdown("report", md, Vec::new()).unwrap();
    assert_eq!(p.skill.name, "report");
    assert_eq!(p.skill.description, "Write reports");
    assert_eq!(p.skill.instructions, "Use the template.\n");
    assert!(matches!(package_from_markdown("other", md, Vec::new()), Err(Error::Invalid(_))));
    let broken = "---\nname: [report\n---\nbody\n";
    assert!(matches!(package_from_markdown("report", broken, Vec::new()), Err(Error::Invalid(_))));
    let missing = "---\nname: report\n---\nbody\n";
    assert!(matches!(package_from_markdown("report", missing, Vec::new()), Err(Error::Invalid(_))));
    assert!(matches!(package_from_markdown("report", "no frontmatter", Vec::new()), Err(Error::Invalid(_))));
}

#[test]
fn budgeted_models_open_fresh_or_keep_the_stored_budget() {
    let mut d = Data::new();
    let m = BudgetedModel::new((), &mut d, "acme", "team", 3).unwrap();
    let u = m.usage(&d).unwrap();
    assert_eq!((u.limit, u.admitted), (3, 0));
    d.admit_model_call("acme", "team").unwrap();
    let again = BudgetedModel::new((), &mut d, "acme", "team", 3).unwrap();
    let u = again.usage(&d).unwrap();
    assert_eq!((u.limit, u.admitted), (3, 1));
    assert!(matches!(BudgetedModel::new((), &mut d, "acme", "team", 4), Err(Error::Conflict(_))));
    assert!(matches!(BudgetedModel::new((), &mut d, "acme", " ", 4), Err(Error::Invalid(_))));
}

#[test]
fn the_loop_sees_each_bound_tool_by_its_alias() {
    let mut d = Data::new();
    let tool = Tool {
        id: "lookup".to_string(),
        workspace_id: "acme".to_string(),
        version: 1,
        schema_version: SCHEMA_VERSION,
        name: "lookup_order".to_string(),
        description: "Look up \"an\" order".to_string(),
        input_schema: "{\"type\":\"object\"}".to_string(),
        output_schema: None,
        execution: Execution::Registered { key: "orders.lookup".to_string() },
        credential_ref: None,
        policy_ref: "orders".to_string(),
        effect: Effect::Read,
        created_at: 1,
    };
    publish_tool(&mut d, tool).unwrap();
    let agent = Agent {
        id: "orders".to_string(),
        workspace_id: "acme".to_string(),
        version: 1,
        schema_version: SCHEMA_VERSION,
        name: "Orders".to_string(),
        allow_user_input: false,
        instructions: "Help".to_string(),
        model: "fixture".to_string(),
        tools: vec![AgentTool { tool_ref: VersionRef { id: "lookup".to_string(), version: 1 }, alias: "find".to_string() }],
        input_schema: None,
        output_schema: None,
        limits: Limits::default(),
        created_at: 1,
    };
    publish_agent(&mut d, agent.clone()).unwrap();
    assert_eq!(
        loop_tools(&d, &"acme".to_string(), &agent).unwrap(),
        "[{\"name\":\"find\",\"description\":\"Look up \\\"an\\\" order\",\"input_schema\":{\"type\":\"object\"}}]"
    );
    let mut dangling = agent.clone();
    dangling.tools[0].tool_ref.version = 2;
    assert_eq!(loop_tools(&d, &"acme".to_string(), &dangling), Err(Error::NotFound));
}

fn child(schema: Option<&str>) -> Agent {
    Agent {
        id: "researcher".to_string(),
        workspace_id: "acme".to_string(),
        version: 1,
        schema_version: SCHEMA_VERSION,
        name: "Researcher".to_string(),
        allow_user_input: false,
        instructions: "Research".to_string(),
        model: "fixture".to_string(),
        tools: Vec::new(),
        input_schema: schema.map(str::to_string),
        output_schema: None,
        limits: Limits::default(),
        created_at: 1,
    }
}

fn sha256_hex(text: &str) -> String {
    format!("{:x}", <sha2::Sha256 as Digest>::digest(text.as_bytes()))
}

#[test]
fn delegation_tools_wrap_the_child_task_and_join_its_runs() {
    let researcher = VersionRef { id: "researcher".to_string(), version: 1 };
    let mut d = Data::new();
    assert_eq!(
        hudson_core::delegation::delegation_tools(&d, &actor(), &researcher, "delegate_researcher", "Ask", "configured-subagents", false),
        Err(Error::NotFound)
    );
    publish_agent(&mut d, child(None)).unwrap();
    let (delegate, join) = hudson_core::delegation::delegation_tools(
        &d, &actor(), &researcher, "delegate_researcher", "Ask", "configured-subagents", false).unwrap();
    let raw = "[{\"workspace_id\":\"acme\",\"id\":\"svc\"},{\"id\":\"researcher\",\"version\":1},\"delegate_researcher\",\"Ask\"]";
    let key = format!("hudson.delegate.{}", sha256_hex(raw));
    assert_eq!(delegate.id, key);
    assert_eq!(delegate.execution, Execution::Registered { key: key.clone() });
    assert_eq!(
        delegate.input_schema,
        "{\"additionalProperties\":false,\"properties\":{\"task\":{\"maxLength\":16384,\"minLength\":1,\"type\":\"string\"}},\"required\":[\"task\"],\"type\":\"object\"}"
    );
    assert_eq!(delegate.effect, Effect::Write);
    assert_eq!(delegate.policy_ref, "configured-subagents");
    assert_eq!(join.id, format!("{key}.join"));
    assert_eq!(join.name, "join_delegate_researcher");
    assert!(join.input_schema.contains("\"run_id\":{\"format\":\"uuid\",\"type\":\"string\"}"));
    let (deferred, _) = hudson_core::delegation::delegation_tools(
        &d, &actor(), &researcher, "delegate_researcher", "Ask", "configured-subagents", true).unwrap();
    let raw_deferred = "[{\"workspace_id\":\"acme\",\"id\":\"svc\"},{\"id\":\"researcher\",\"version\":1},\"delegate_researcher\",\"Ask\",\"temporal\"]";
    assert_eq!(deferred.id, format!("hudson.delegate.{}", sha256_hex(raw_deferred)));
}

#[test]
fn structured_child_tasks_get_their_own_resource_id() {
    let researcher = VersionRef { id: "researcher".to_string(), version: 2 };
    let mut d = Data::new();
    let mut c = child(Some("{\"type\":\"object\",\"properties\":{\"q\":{\"$ref\":\"#/$defs/q\"}},\"$defs\":{\"q\":{\"type\":\"string\"}}}"));
    c.version = 2;
    publish_agent(&mut d, c).unwrap();
    let (delegate, _) = hudson_core::delegation::delegation_tools(&d, &actor(), &researcher, "delegate", "Ask", "p", false).unwrap();
    let canonical = "{\"$defs\":{\"q\":{\"type\":\"string\"}},\"properties\":{\"q\":{\"$ref\":\"#/$defs/q\"}},\"type\":\"object\"}";
    let task = format!(
        "{{\"$defs\":{{\"q\":{{\"type\":\"string\"}}}},\"$id\":\"urn:hudson:task:{}\",\"properties\":{{\"q\":{{\"$ref\":\"#/$defs/q\"}}}},\"type\":\"object\"}}",
        sha256_hex(canonical)
    );
    assert_eq!(
        delegate.input_schema,
        format!("{{\"additionalProperties\":false,\"properties\":{{\"task\":{task}}},\"required\":[\"task\"],\"type\":\"object\"}}")
    );
}

#[test]
fn memory_tools_write_under_the_approving_policy() {
    let scope = hudson_core::memory::MemoryScope { name: "company".to_string() };
    let tools = hudson_core::memory::memory_tools(&"root".to_string(), 2, &actor(), &scope, "memory-read:root:2", "memory-write:root:2").unwrap();
    let names: Vec<&str> = tools.iter().map(|t| t.name.as_str()).collect();
    assert_eq!(names, vec!["recall_memory", "retain_memory", "delete_memory"]);
    let prefix = format!("hudson.memory.{}", sha256_hex("[\"acme\",\"svc\",{\"name\":\"company\"}]"));
    assert_eq!(tools[0].execution, Execution::Registered { key: format!("{prefix}.recall_memory") });
    assert_eq!(tools[0].id, "root:memory:recall_memory");
    assert_eq!(tools[0].version, 2);
    assert_eq!((tools[0].effect, tools[0].policy_ref.as_str()), (Effect::Read, "memory-read:root:2"));
    assert_eq!((tools[1].effect, tools[1].policy_ref.as_str()), (Effect::Write, "memory-write:root:2"));
    assert_eq!((tools[2].effect, tools[2].policy_ref.as_str()), (Effect::Write, "memory-write:root:2"));
    assert!(tools[2].input_schema.contains("\"id\":{\"format\":\"uuid\",\"type\":\"string\"}"));
    let blank = hudson_core::memory::MemoryScope { name: " ".to_string() };
    assert!(matches!(hudson_core::memory::memory_tools(&"root".to_string(), 2, &actor(), &blank, "r", "w"), Err(Error::Invalid(_))));
}

#[test]
fn the_skill_loader_lists_the_catalog() {
    let c = SkillCatalog::new(vec![skill("beta", "B"), skill("alpha", "A")]).unwrap();
    let t = c.loader_tool("acme", "skills");
    assert_eq!(t.id, format!("hudson.skills.{}", c.digest()));
    assert_eq!(t.name, "load_skill");
    assert_eq!(
        t.description,
        "Load instructions for a relevant skill before working on its task. Available skills: [{\"description\":\"About alpha\",\"name\":\"alpha\"},{\"description\":\"About beta\",\"name\":\"beta\"}]"
    );
    assert_eq!(
        t.input_schema,
        "{\"additionalProperties\":false,\"properties\":{\"name\":{\"enum\":[\"alpha\",\"beta\"],\"type\":\"string\"}},\"required\":[\"name\"],\"type\":\"object\"}"
    );
    assert_eq!((t.effect, t.policy_ref.as_str(), t.created_at), (Effect::Read, "skills", 0));
    let package = SkillPackage {
        skill: skill("report", "Write"),
        resources: vec![SkillResource { path: "references/a.md".to_string(), contents: "A".to_string() }],
    };
    let with = SkillCatalog::with_packages(Vec::new(), vec![package]).unwrap().loader_tool("acme", "skills");
    assert!(with.input_schema.contains("\"resource\":{\"description\":\"Optional relative resource path listed by load_skill\",\"type\":\"string\"}"));
}

#[test]
fn the_context_reader_is_keyed_by_workspace_and_policy() {
    let policy = hudson_core::context::ContextPolicy::default();
    let t = hudson_core::context::context_reader_tool(&"root".to_string(), 3, &"acme".to_string(), "context:root:3", &policy).unwrap();
    assert_eq!(t.id, "root:context:read_context_artifact");
    assert_eq!(t.name, "read_context_artifact");
    assert_eq!(t.version, 3);
    let raw = "[\"acme\",{\"offload_bytes\":8192,\"recent_exchanges\":2,\"excerpt_bytes\":1024,\"page_bytes\":1024}]";
    assert_eq!(t.execution, Execution::Registered { key: format!("hudson.context.{}", sha256_hex(raw)) });
    assert_eq!((t.effect, t.policy_ref.as_str()), (Effect::Read, "context:root:3"));
    let mut bad = policy;
    bad.page_bytes = 0;
    assert!(matches!(hudson_core::context::context_reader_tool(&"root".to_string(), 3, &"acme".to_string(), "p", &bad), Err(Error::Invalid(_))));
}
