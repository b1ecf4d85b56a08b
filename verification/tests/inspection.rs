use hudson_core::definitions::{bind_model_transport, publish_agent, publish_tool};
use hudson_core::delegation::{link_child, validate_child_access};
use hudson_core::harness::{Action, Checkpoint, Config, ModelRequest, ModelResponse, ToolCall, Transition};
use hudson_core::inspection::{children, events, inspect, inspect_operation, operation_run, operations, validate_model_budget, validate_resume};
use hudson_core::models::{Actor, Agent, AgentTool, Effect, EventType, Execution, Goal, Limits, OperationStatus, RunStatus, Tool, VersionRef, SCHEMA_VERSION};
use hudson_core::store::{Data, ModelBudgetBinding, Policy};
use hudson_core::submit::submit_scheduled;
use hudson_core::tick::{commit_transition, tick, TickStep};
use hudson_core::Error;

fn actor() -> Actor {
    Actor { workspace_id: "acme".to_string(), id: "svc".to_string() }
}

fn tool_ref() -> VersionRef {
    VersionRef { id: "lookup".to_string(), version: 1 }
}

fn agent_ref() -> VersionRef {
    VersionRef { id: "orders".to_string(), version: 1 }
}

fn tool() -> Tool {
    Tool {
        id: "lookup".to_string(),
        workspace_id: "acme".to_string(),
        version: 1,
        schema_version: SCHEMA_VERSION,
        name: "lookup_order".to_string(),
        description: "Look up an order".to_string(),
        input_schema: "{\"type\":\"object\"}".to_string(),
        output_schema: None,
        execution: Execution::Registered { key: "orders.lookup".to_string() },
        credential_ref: None,
        policy_ref: "orders".to_string(),
        effect: Effect::Read,
        created_at: 1,
    }
}

fn agent() -> Agent {
    Agent {
        id: "orders".to_string(),
        workspace_id: "acme".to_string(),
        version: 1,
        schema_version: SCHEMA_VERSION,
        name: "Orders".to_string(),
        allow_user_input: false,
        instructions: "Help with orders".to_string(),
        model: "fixture".to_string(),
        tools: vec![AgentTool { tool_ref: tool_ref(), alias: "lookup_order".to_string() }],
        input_schema: Some("{\"type\":\"object\"}".to_string()),
        output_schema: None,
        limits: Limits::default(),
        created_at: 1,
    }
}

fn config() -> Config {
    Config {
        instructions: "Help with orders".to_string(),
        allow_user_input: false,
        model: "fixture".to_string(),
        tools: "[]".to_string(),
        max_context_bytes: 65536,
    }
}

fn store(require_approval: bool) -> Data {
    let mut d = Data::new();
    publish_tool(&mut d, tool()).unwrap();
    publish_agent(&mut d, agent()).unwrap();
    let policy = Policy { actors: vec!["svc".to_string()], approvers: vec!["boss".to_string()], require_approval };
    d.ensure_policy(&"acme".to_string(), &"orders".to_string(), policy).unwrap();
    d
}

fn checkpoint(step: u64) -> Checkpoint {
    Checkpoint { step, payload: format!("{{\"step\":{step}}}") }
}

fn submit(d: &mut Data, key: Option<&str>) -> u128 {
    submit_scheduled(d, &actor(), agent_ref(), "{\"order_id\":\"123\"}".to_string(), key.map(str::to_string), None, None, None, checkpoint(0)).unwrap()
}

fn run<'a>(d: &'a Data, id: u128) -> &'a hudson_core::store::Run {
    d.runs.iter().find(|r| r.meta.id == id).unwrap()
}

fn call() -> ToolCall {
    ToolCall {
        call_id: "c1".to_string(),
        name: "lookup_order".to_string(),
        arguments: "{\"order_id\":\"123\"}".to_string(),
        json: "{\"call_id\":\"c1\",\"name\":\"lookup_order\",\"arguments\":{\"order_id\":\"123\"}}".to_string(),
    }
}

fn model_request() -> ModelRequest {
    ModelRequest { model: "fixture".to_string(), instructions: "Help with orders".to_string(), tools: "[]".to_string(), json: "{}".to_string() }
}

fn transition(step: u64, action: Action) -> Transition {
    Transition { checkpoint: checkpoint(step), action, checkpoint_bytes: 16, action_bytes: 16 }
}


fn call_n(n: u32) -> ToolCall {
    ToolCall {
        call_id: format!("c{n}"),
        name: "lookup_order".to_string(),
        arguments: format!("{{\"order_id\":\"{n}\"}}"),
        json: format!("{{\"call_id\":\"c{n}\",\"name\":\"lookup_order\",\"arguments\":{{\"order_id\":\"{n}\"}}}}"),
    }
}

/// Submit a run and commit one model call for it; return the run and its operation.
fn run_with_model_call(d: &mut Data) -> (u128, u128) {
    let id = submit(d, None);
    assert_eq!(tick(d, &actor(), id, &None, 1).unwrap(), TickStep::Advance);
    let input = run(d, id).next_input.clone().unwrap();
    let revision = run(d, id).revision;
    commit_transition(d, &actor(), id, revision, &input, &config(), transition(1, Action::CallModel { request: model_request() })).unwrap();
    let op = run(d, id).pending_operations[0];
    (id, op)
}

#[test]
fn views_are_scoped_by_ownership() {
    let mut d = store(false);
    let (id, op) = run_with_model_call(&mut d);
    let view = inspect(&d, &actor(), id).unwrap();
    assert_eq!(view.id, id);
    assert_eq!(view.status, RunStatus::Running);
    assert_eq!(view.usage.model_calls, 1);
    let other = Actor { workspace_id: "acme".to_string(), id: "intruder".to_string() };
    assert!(matches!(inspect(&d, &other, id), Err(Error::NotFound)));
    let ov = inspect_operation(&d, &actor(), op).unwrap();
    assert_eq!(ov.kind, "model");
    assert_eq!(ov.run_id, id);
    assert_eq!(ov.status, OperationStatus::Pending);
    assert_eq!(ov.tool_name, None);
    assert!(matches!(inspect_operation(&d, &other, op), Err(Error::NotFound)));
    assert!(matches!(inspect_operation(&d, &actor(), op + 1), Err(Error::NotFound)));
    assert_eq!(operation_run(&d, &actor(), op), Ok(id));
    assert_eq!(operation_run(&d, &other, op), Err(Error::NotFound));
}

#[test]
fn operations_come_in_batch_order_and_events_after_a_sequence() {
    let mut d = store(false);
    let id = submit(&mut d, None);
    tick(&mut d, &actor(), id, &None, 1).unwrap();
    let calls = vec![call_n(1), call_n(2), call_n(3)];
    let input = hudson_core::harness::Input::Model { response: ModelResponse::ToolCalls { calls: calls.clone(), json: "{}".to_string() } };
    let revision = run(&d, id).revision;
    commit_transition(&mut d, &actor(), id, revision, &input, &config(), transition(1, Action::ExecuteTools { calls })).unwrap();
    let ops = operations(&d, &actor(), id).unwrap();
    assert_eq!(ops.len(), 3);
    for (k, op) in ops.iter().enumerate() {
        assert_eq!(op.request_index, k);
        assert_eq!(op.step_index, 1);
    }
    let tool_view = inspect_operation(&d, &actor(), ops[1].meta.id).unwrap();
    assert_eq!(tool_view.kind, "tool");
    assert_eq!(tool_view.tool_name.as_deref(), Some("lookup_order"));
    assert_eq!(tool_view.arguments.as_deref(), Some("{\"order_id\":\"2\"}"));
    let all = events(&d, &actor(), id, 0).unwrap();
    assert_eq!(all[0].event_type, EventType::RunCreated);
    let later = events(&d, &actor(), id, 1).unwrap();
    assert_eq!(later.len(), all.len() - 1);
    assert_eq!(later[0].sequence, 2);
    assert!(events(&d, &actor(), id, 1000).unwrap().is_empty());
    let other = Actor { workspace_id: "elsewhere".to_string(), id: "svc".to_string() };
    assert!(operations(&d, &other, id).is_err());
    assert!(events(&d, &other, id, 0).is_err());
}

#[test]
fn a_child_links_once_and_never_becomes_its_own_ancestor() {
    let mut d = store(false);
    let (parent, op) = run_with_model_call(&mut d);
    let child = submit(&mut d, None);
    assert_eq!(link_child(&mut d, &actor(), child, op + 99), Ok(false));
    assert_eq!(link_child(&mut d, &actor(), child, op), Ok(true));
    assert_eq!(run(&d, child).parent_operation, Some(op));
    let revision = run(&d, child).revision;
    assert_eq!(link_child(&mut d, &actor(), child, op), Ok(true));
    assert_eq!(run(&d, child).revision, revision);
    let kids = children(&d, &actor(), parent).unwrap();
    assert_eq!(kids.len(), 1);
    assert_eq!(kids[0].id, child);
    assert_eq!(kids[0].parent_operation, Some(op));
    validate_child_access(&d, &actor(), child, op, &agent_ref()).unwrap();
    let wrong = VersionRef { id: "orders".to_string(), version: 2 };
    assert_eq!(validate_child_access(&d, &actor(), child, op, &wrong), Err(Error::Denied));
    assert_eq!(validate_child_access(&d, &actor(), parent, op, &agent_ref()), Err(Error::Denied));
    // The parent cannot be attached below its own child.
    assert_eq!(tick(&mut d, &actor(), child, &None, 2).unwrap(), TickStep::Advance);
    let input = run(&d, child).next_input.clone().unwrap();
    let revision = run(&d, child).revision;
    commit_transition(&mut d, &actor(), child, revision, &input, &config(), transition(1, Action::CallModel { request: model_request() })).unwrap();
    let child_op = run(&d, child).pending_operations[0];
    assert!(matches!(link_child(&mut d, &actor(), parent, child_op), Err(Error::Invalid(_))));
    // A started run cannot be attached.
    let (other, _) = run_with_model_call(&mut d);
    assert!(matches!(link_child(&mut d, &actor(), other, op), Err(Error::Conflict(_))));
    assert!(children(&d, &actor(), other).unwrap().is_empty());
}

#[test]
fn a_stopped_parent_accepts_no_child() {
    let mut d = store(false);
    let (parent, op) = run_with_model_call(&mut d);
    hudson_core::runtime::cancel(&mut d, &actor(), parent).unwrap();
    let child = submit(&mut d, None);
    assert!(matches!(link_child(&mut d, &actor(), child, op), Err(Error::Conflict(_))));
    let stranger = Actor { workspace_id: "acme".to_string(), id: "nobody".to_string() };
    assert_eq!(link_child(&mut d, &stranger, child, op), Err(Error::NotFound));
}

#[test]
fn children_listing_is_oldest_first() {
    let mut d = store(false);
    let (parent, op) = run_with_model_call(&mut d);
    let first = submit(&mut d, None);
    let second = submit(&mut d, None);
    link_child(&mut d, &actor(), second, op).unwrap();
    link_child(&mut d, &actor(), first, op).unwrap();
    let kids = children(&d, &actor(), parent).unwrap();
    let expected: Vec<u128> = {
        let mut v = vec![(run(&d, first).meta.created_at, first), (run(&d, second).meta.created_at, second)];
        v.sort();
        v.into_iter().map(|(_, id)| id).collect()
    };
    assert_eq!(kids.iter().map(|k| k.id).collect::<Vec<_>>(), expected);
}

#[test]
fn a_model_transport_binding_is_pinned_once() {
    let mut d = store(false);
    let missing = VersionRef { id: "nobody".to_string(), version: 1 };
    assert_eq!(bind_model_transport(&mut d, "acme", &missing, "fp"), Err(Error::NotFound));
    bind_model_transport(&mut d, "acme", &agent_ref(), "https://models.example/v1").unwrap();
    bind_model_transport(&mut d, "acme", &agent_ref(), "https://models.example/v1").unwrap();
    assert!(matches!(bind_model_transport(&mut d, "acme", &agent_ref(), "https://other.example/v2"), Err(Error::Conflict(_))));
    assert_eq!(d.model_bindings.len(), 1);
}

#[test]
fn resumes_and_budget_bindings_must_match_the_saved_run() {
    let mut d = store(false);
    let id = submit(&mut d, None);
    validate_resume(&d, &actor(), id, &agent_ref(), &None).unwrap();
    let goal = Some(Goal { objective: "ship".to_string(), success_schema: "{}".to_string(), criteria: "[]".to_string() });
    assert!(matches!(validate_resume(&d, &actor(), id, &agent_ref(), &goal), Err(Error::Conflict(_))));
    let other_agent = VersionRef { id: "orders".to_string(), version: 9 };
    assert!(matches!(validate_resume(&d, &actor(), id, &other_agent, &None), Err(Error::Conflict(_))));
    validate_model_budget(&d, &actor(), id, &None).unwrap();
    let binding = Some(ModelBudgetBinding { workspace: "acme".to_string(), group: "team".to_string() });
    assert!(matches!(validate_model_budget(&d, &actor(), id, &binding), Err(Error::Conflict(_))));
    hudson_core::runtime::cancel(&mut d, &actor(), id).unwrap();
    hudson_core::runtime::finish_cancellation(&mut d, &actor(), id).unwrap();
    validate_model_budget(&d, &actor(), id, &binding).unwrap();
    let stranger = Actor { workspace_id: "x".to_string(), id: "y".to_string() };
    assert_eq!(validate_model_budget(&d, &stranger, id, &None), Err(Error::NotFound));
}
