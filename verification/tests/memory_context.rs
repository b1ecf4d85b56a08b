use hudson_core::recall::select_within_budget;
use hudson_core::context::{bind_context_policy, commit_artifacts, read_context_artifact, ContextArtifact, ContextPolicy};
use sha2::Digest;
use hudson_core::definitions::{publish_agent, publish_tool};
use hudson_core::harness::{Action, Checkpoint, Config, ModelRequest, ToolCall, Transition};
use hudson_core::memory::{bind_memory, delete_memory, retain_completed, retain_memory, MemoryConfig, MemoryKind, MemoryScope, MemorySource, RetainMemory};
use hudson_core::models::{Actor, Agent, AgentTool, Effect, Execution, Limits, RunStatus, Tool, VersionRef, SCHEMA_VERSION};
use hudson_core::store::{Data, Policy};
use hudson_core::submit::submit_scheduled;
use hudson_core::Error;

fn actor() -> Actor {
    Actor { workspace_id: "acme".to_string(), id: "svc".to_string() }
}

fn tool_ref() -> VersionRef {
    VersionRef { id: "lookup".to_string(), version: 1 }
}

fn agent_ref() -> VersionRef {
    VersionRef { id: "orders".to_string(), version: 1 }
}

fn tool() -> Tool {
    Tool {
        id: "lookup".to_string(),
        workspace_id: "acme".to_string(),
        version: 1,
        schema_version: SCHEMA_VERSION,
        name: "lookup_order".to_string(),
        description: "Look up an order".to_string(),
        input_schema: "{\"type\":\"object\"}".to_string(),
        output_schema: None,
        execution: Execution::Registered { key: "orders.lookup".to_string() },
        credential_ref: None,
        policy_ref: "orders".to_string(),
        effect: Effect::Read,
        created_at: 1,
    }
}

fn agent() -> Agent {
    Agent {
        id: "orders".to_string(),
        workspace_id: "acme".to_string(),
        version: 1,
        schema_version: SCHEMA_VERSION,
        name: "Orders".to_string(),
        allow_user_input: false,
        instructions: "Help with orders".to_string(),
        model: "fixture".to_string(),
        tools: vec![AgentTool { tool_ref: tool_ref(), alias: "lookup_order".to_string() }],
        input_schema: Some("{\"type\":\"object\"}".to_string()),
        output_schema: None,
        limits: Limits::default(),
        created_at: 1,
    }
}

fn config() -> Config {
    Config {
        instructions: "Help with orders".to_string(),
        allow_user_input: false,
        model: "fixture".to_string(),
        tools: "[]".to_string(),
        max_context_bytes: 65536,
    }
}

fn store(require_approval: bool) -> Data {
    let mut d = Data::new();
    publish_tool(&mut d, tool()).unwrap();
    publish_agent(&mut d, agent()).unwrap();
    let policy = Policy { actors: vec!["svc".to_string()], approvers: vec!["boss".to_string()], require_approval };
    d.ensure_policy(&"acme".to_string(), &"orders".to_string(), policy).unwrap();
    d
}

fn checkpoint(step: u64) -> Checkpoint {
    Checkpoint { step, payload: format!("{{\"step\":{step}}}") }
}

fn submit(d: &mut Data, key: Option<&str>) -> u128 {
    submit_scheduled(d, &actor(), agent_ref(), "{\"order_id\":\"123\"}".to_string(), key.map(str::to_string), None, None, None, checkpoint(0)).unwrap()
}

fn run<'a>(d: &'a Data, id: u128) -> &'a hudson_core::store::Run {
    d.runs.iter().find(|r| r.meta.id == id).unwrap()
}

fn call() -> ToolCall {
    ToolCall {
        call_id: "c1".to_string(),
        name: "lookup_order".to_string(),
        arguments: "{\"order_id\":\"123\"}".to_string(),
        json: "{\"call_id\":\"c1\",\"name\":\"lookup_order\",\"arguments\":{\"order_id\":\"123\"}}".to_string(),
    }
}

fn model_request() -> ModelRequest {
    ModelRequest { model: "fixture".to_string(), instructions: "Help with orders".to_string(), tools: "[]".to_string(), json: "{}".to_string() }
}

fn transition(step: u64, action: Action) -> Transition {
    Transition { checkpoint: checkpoint(step), action, checkpoint_bytes: 16, action_bytes: 16 }
}


fn scope() -> MemoryScope {
    MemoryScope { name: "company".to_string() }
}

fn completed_with(d: &mut Data, result: &str) -> u128 {
    let id = submit(d, None);
    let r = d.runs.iter_mut().find(|r| r.meta.id == id).unwrap();
    r.status = RunStatus::Completed;
    r.result = Some(result.to_string());
    id
}

#[test]
fn a_completed_run_retains_its_selected_outcome_once() {
    let mut d = store(false);
    let config = MemoryConfig { scope: scope(), recall_limit: 5, retain_pointer: Some("/summary".to_string()) };
    bind_memory(&mut d, "acme", &agent_ref(), Some(config)).unwrap();
    let id = completed_with(&mut d, "{\"summary\":\"Order 123 shipped\",\"other\":1}");
    retain_completed(&mut d, id).unwrap();
    assert_eq!(d.memories.len(), 1);
    let m = &d.memories[0];
    assert_eq!(m.content.text, "Order 123 shipped");
    assert_eq!(m.content.kind, MemoryKind::SuccessfulOutcome);
    assert_eq!(m.scope, "company");
    assert_eq!(m.request_key, format!("hudson.completed:{}", uuid::Uuid::from_u128(id)));
    assert_eq!(m.content.sources[0].reference, format!("run:{}#/summary", uuid::Uuid::from_u128(id)));
    assert_eq!(m.content.sources[0].run_id, Some(id));
    // Retaining again changes nothing.
    retain_completed(&mut d, id).unwrap();
    assert_eq!(d.memories.len(), 1);
    // Blank, non-string or missing selections are not retained.
    let blank = completed_with(&mut d, "{\"summary\":\"  \"}");
    let number = completed_with(&mut d, "{\"summary\":7}");
    let missing = completed_with(&mut d, "{}");
    for run in [blank, number, missing] {
        retain_completed(&mut d, run).unwrap();
    }
    assert_eq!(d.memories.len(), 1);
    assert_eq!(retain_completed(&mut d, 424242), Err(Error::NotFound));
}

#[test]
fn unfinished_runs_and_unbound_agents_retain_nothing() {
    let mut d = store(false);
    let id = submit(&mut d, None);
    retain_completed(&mut d, id).unwrap();
    let done = completed_with(&mut d, "{\"summary\":\"x\"}");
    retain_completed(&mut d, done).unwrap();
    assert!(d.memories.is_empty());
}

#[test]
fn retained_claims_are_idempotent_and_deletable() {
    let mut d = store(false);
    let claim = RetainMemory {
        text: "Prefers email".to_string(),
        kind: MemoryKind::UserFact,
        sources: vec![MemorySource { reference: "conversation".to_string(), run_id: None, operation_id: None }],
        supersedes: None,
    };
    let first = retain_memory(&mut d, &actor(), &scope(), "k1", claim.clone()).unwrap();
    let again = retain_memory(&mut d, &actor(), &scope(), "k1", claim.clone()).unwrap();
    assert_eq!(first.id, again.id);
    let changed = RetainMemory { text: "Prefers phone".to_string(), ..claim.clone() };
    assert!(matches!(retain_memory(&mut d, &actor(), &scope(), "k1", changed), Err(Error::Conflict(_))));
    delete_memory(&mut d, &actor(), &scope(), first.id).unwrap();
    assert!(d.memories[0].deleted);
    let bad_scope = MemoryScope { name: " ".to_string() };
    assert!(matches!(retain_memory(&mut d, &actor(), &bad_scope, "k2", claim), Err(Error::Invalid(_))));
}

fn artifact(id: &str, run: u128, content: &str) -> ContextArtifact {
    ContextArtifact { id: id.to_string(), workspace_id: "acme".to_string(), run_id: run, content: content.to_string() }
}

#[test]
fn artifacts_page_on_character_boundaries_and_stay_scoped() {
    let mut d = store(false);
    let run = submit(&mut d, None);
    let text = "\"héllo wörld\"";
    commit_artifacts(&mut d, vec![artifact("a1", run, text)]).unwrap();
    commit_artifacts(&mut d, vec![artifact("a1", run, text)]).unwrap();
    assert_eq!(d.context_artifacts.len(), 1);
    assert!(matches!(commit_artifacts(&mut d, vec![artifact("a1", run, "\"other\"")]), Err(Error::Conflict(_))));
    let first = read_context_artifact(&d, &actor(), run, "a1", 0, 3).unwrap();
    assert_eq!(first.text, "\"h");
    assert_eq!(first.next_offset, Some(2));
    assert_eq!(first.total_bytes, text.len());
    let second = read_context_artifact(&d, &actor(), run, "a1", 2, 2).unwrap();
    assert_eq!(second.text, "é");
    assert!(matches!(read_context_artifact(&d, &actor(), run, "a1", 3, 2), Err(Error::Invalid(_))));
    assert!(matches!(read_context_artifact(&d, &actor(), run, "a1", 0, 0), Err(Error::Invalid(_))));
    let last = read_context_artifact(&d, &actor(), run, "a1", 0, 4096).unwrap();
    assert_eq!(last.text, text);
    assert_eq!(last.next_offset, None);
    let stranger = Actor { workspace_id: "acme".to_string(), id: "other".to_string() };
    assert_eq!(read_context_artifact(&d, &stranger, run, "a1", 0, 10).err(), Some(Error::NotFound));
    let other_run = submit(&mut d, None);
    assert_eq!(read_context_artifact(&d, &actor(), other_run, "a1", 0, 10).err(), Some(Error::NotFound));
    assert!(ContextPolicy::default().validate().is_ok());
}

fn reader_key(workspace: &str, p: &ContextPolicy) -> String {
    let json = format!(
        "[{},{{\"offload_bytes\":{},\"recent_exchanges\":{},\"excerpt_bytes\":{},\"page_bytes\":{}}}]",
        serde_json::to_string(workspace).unwrap(), p.offload_bytes, p.recent_exchanges, p.excerpt_bytes, p.page_bytes
    );
    format!("hudson.context.{:x}", sha2::Sha256::digest(json.as_bytes()))
}

fn agent_with_reader(id: &str, reader: &str) -> (Tool, Agent) {
    let t = Tool {
        id: format!("{id}-reader"),
        name: "read_context_artifact".to_string(),
        execution: Execution::Registered { key: reader.to_string() },
        ..tool()
    };
    let a = Agent {
        id: id.to_string(),
        tools: vec![AgentTool { tool_ref: VersionRef { id: format!("{id}-reader"), version: 1 }, alias: "read_context_artifact".to_string() }],
        ..agent()
    };
    (t, a)
}

#[test]
fn context_management_is_pinned_with_its_archive_reader() {
    let mut d = store(false);
    let policy = ContextPolicy::default();
    let bad = ContextPolicy { page_bytes: 0, ..policy };
    assert!(matches!(bind_context_policy(&mut d, "acme", &agent_ref(), Some(bad)), Err(Error::Invalid(_))));
    let missing = VersionRef { id: "nobody".to_string(), version: 1 };
    assert_eq!(bind_context_policy(&mut d, "acme", &missing, Some(policy)), Err(Error::NotFound));
    // The orders agent has no archive reader.
    assert!(matches!(bind_context_policy(&mut d, "acme", &agent_ref(), Some(policy)), Err(Error::Invalid(_))));
    bind_context_policy(&mut d, "acme", &agent_ref(), None).unwrap();
    assert!(matches!(bind_context_policy(&mut d, "acme", &agent_ref(), Some(policy)), Err(Error::Invalid(_))));
    let (t, a) = agent_with_reader("archivist", &reader_key("acme", &policy));
    publish_tool(&mut d, t).unwrap();
    publish_agent(&mut d, a).unwrap();
    let archivist = VersionRef { id: "archivist".to_string(), version: 1 };
    bind_context_policy(&mut d, "acme", &archivist, Some(policy)).unwrap();
    bind_context_policy(&mut d, "acme", &archivist, Some(policy)).unwrap();
    assert!(matches!(bind_context_policy(&mut d, "acme", &archivist, None), Err(Error::Conflict(_))));
    // A reader registered for another policy does not count.
    let (t2, a2) = agent_with_reader("other", &reader_key("acme", &ContextPolicy { page_bytes: 512, ..policy }));
    publish_tool(&mut d, t2).unwrap();
    publish_agent(&mut d, a2).unwrap();
    let other = VersionRef { id: "other".to_string(), version: 1 };
    assert!(matches!(bind_context_policy(&mut d, "acme", &other, Some(policy)), Err(Error::Invalid(_))));
}

#[test]
fn context_cannot_be_enabled_after_runs_started() {
    let mut d = store(false);
    let policy = ContextPolicy::default();
    let (t, a) = agent_with_reader("archivist", &reader_key("acme", &policy));
    publish_tool(&mut d, t).unwrap();
    publish_agent(&mut d, a).unwrap();
    let archivist = VersionRef { id: "archivist".to_string(), version: 1 };
    submit_scheduled(&mut d, &actor(), archivist.clone(), "{}".to_string(), None, None, None, None, checkpoint(0)).unwrap();
    assert!(matches!(bind_context_policy(&mut d, "acme", &archivist, Some(policy)), Err(Error::Conflict(_))));
    bind_context_policy(&mut d, "acme", &archivist, None).unwrap();
}

#[test]
fn a_claim_takes_the_identifier_it_is_given_unless_taken() {
    let mut d = store(false);
    let claim = RetainMemory {
        text: "Prefers email".to_string(),
        kind: MemoryKind::UserFact,
        sources: vec![MemorySource { reference: "conversation".to_string(), run_id: None, operation_id: None }],
        supersedes: None,
    };
    let first = hudson_core::memory::retain_memory_with(&mut d, &actor(), &scope(), "k1", claim.clone(), 5).unwrap();
    assert_eq!(first.id, 5);
    let taken = hudson_core::memory::retain_memory_with(&mut d, &actor(), &scope(), "k2", claim.clone(), 5);
    assert!(matches!(taken, Err(Error::Conflict(_))));
    assert_eq!(d.memories.len(), 1);
    let newer = RetainMemory { text: "Prefers phone".to_string(), supersedes: Some(5), ..claim };
    let second = hudson_core::memory::retain_memory_with(&mut d, &actor(), &scope(), "k3", newer, 6).unwrap();
    assert_eq!(second.id, 6);
    assert_eq!(d.memories[0].superseded_by, Some(6));
}

fn words(s: &[&str]) -> Vec<String> {
    s.iter().map(|w| w.to_string()).collect()
}

#[test]
fn recall_considers_only_live_records_of_the_scope_that_share_a_term() {
    let mut d = store(false);
    let claim = |text: &str| RetainMemory {
        text: text.to_string(),
        kind: MemoryKind::UserFact,
        sources: vec![MemorySource { reference: "conversation".to_string(), run_id: None, operation_id: None }],
        supersedes: None,
    };
    let email = hudson_core::memory::retain_memory_with(&mut d, &actor(), &scope(), "a", claim("Prefers email"), 1).unwrap();
    hudson_core::memory::retain_memory_with(&mut d, &actor(), &scope(), "b", claim("Lives in Paris"), 2).unwrap();
    let gone = hudson_core::memory::retain_memory_with(&mut d, &actor(), &scope(), "c", claim("Email at work"), 3).unwrap();
    delete_memory(&mut d, &actor(), &scope(), gone.id).unwrap();
    let terms = vec![words(&["prefer", "email"]), words(&["live", "pari"]), words(&[])];
    let ids = hudson_core::recall::recall_candidates(&d, &actor(), &scope(), &words(&["email"]), &terms);
    assert_eq!(ids, vec![email.id]);
    let other = Actor { workspace_id: "acme".to_string(), id: "other".to_string() };
    assert!(hudson_core::recall::recall_candidates(&d, &other, &scope(), &words(&["email"]), &terms).is_empty());
    assert_eq!(hudson_core::recall::validate_recall(&scope(), "email", 20), Ok(()));
    assert!(matches!(hudson_core::recall::validate_recall(&scope(), "email", 0), Err(Error::Invalid(_))));
    assert!(matches!(hudson_core::recall::validate_recall(&scope(), &"x".repeat(8193), 5), Err(Error::Invalid(_))));
}

#[test]
fn recall_replies_stay_within_their_byte_budget() {
    assert_eq!(select_within_budget(&vec![100, 200, 300], 2), vec![0, 1]);
    assert_eq!(select_within_budget(&vec![40000, 10, 32755, 5], 20), vec![1, 3]);
    assert_eq!(select_within_budget(&vec![32765], 1), vec![0]);
    assert_eq!(select_within_budget(&vec![32766], 1), Vec::<usize>::new());
}
