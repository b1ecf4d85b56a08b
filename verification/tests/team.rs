use hudson_core::coordination::{bind_coordination_policy, team_task, CoordinationPolicy, DelegationOptions};
use hudson_core::definitions::{publish_agent, publish_tool};
use hudson_core::dispatch::settle_dispatch;
use hudson_core::harness::{Action, Checkpoint, Config, Input, ModelRequest, ModelResponse, ToolCall, ToolOutcome, ToolResult, Transition};
use hudson_core::models::{Actor, Agent, AgentTool, Effect, Execution, Limits, RunStatus, Tool, VersionRef, SCHEMA_VERSION};
use hudson_core::store::{Data, OperationResult, Policy};
use hudson_core::submit::submit_scheduled;
use hudson_core::team::submit_delegated;
use hudson_core::tick::{commit_transition, tick, TickStep};
use hudson_core::Error;

fn actor() -> Actor {
    Actor { workspace_id: "acme".to_string(), id: "svc".to_string() }
}

fn tool_ref() -> VersionRef {
    VersionRef { id: "lookup".to_string(), version: 1 }
}

fn agent_ref() -> VersionRef {
    VersionRef { id: "orders".to_string(), version: 1 }
}

fn tool() -> Tool {
    Tool {
        id: "lookup".to_string(),
        workspace_id: "acme".to_string(),
        version: 1,
        schema_version: SCHEMA_VERSION,
        name: "lookup_order".to_string(),
        description: "Look up an order".to_string(),
        input_schema: "{\"type\":\"object\"}".to_string(),
        output_schema: None,
        execution: Execution::Registered { key: "orders.lookup".to_string() },
        credential_ref: None,
        policy_ref: "orders".to_string(),
        effect: Effect::Read,
        created_at: 1,
    }
}

fn agent() -> Agent {
    Agent {
        id: "orders".to_string(),
        workspace_id: "acme".to_string(),
        version: 1,
        schema_version: SCHEMA_VERSION,
        name: "Orders".to_string(),
        allow_user_input: false,
        instructions: "Help with orders".to_string(),
        model: "fixture".to_string(),
        tools: vec![AgentTool { tool_ref: tool_ref(), alias: "lookup_order".to_string() }],
        input_schema: Some("{\"type\":\"object\"}".to_string()),
        output_schema: None,
        limits: Limits::default(),
        created_at: 1,
    }
}

fn config() -> Config {
    Config {
        instructions: "Help with orders".to_string(),
        allow_user_input: false,
        model: "fixture".to_string(),
        tools: "[]".to_string(),
        max_context_bytes: 65536,
    }
}

fn store(require_approval: bool) -> Data {
    let mut d = Data::new();
    publish_tool(&mut d, tool()).unwrap();
    publish_agent(&mut d, agent()).unwrap();
    let policy = Policy { actors: vec!["svc".to_string()], approvers: vec!["boss".to_string()], require_approval };
    d.ensure_policy(&"acme".to_string(), &"orders".to_string(), policy).unwrap();
    d
}

fn checkpoint(step: u64) -> Checkpoint {
    Checkpoint { step, payload: format!("{{\"step\":{step}}}") }
}

fn submit(d: &mut Data, key: Option<&str>) -> u128 {
    submit_scheduled(d, &actor(), agent_ref(), "{\"order_id\":\"123\"}".to_string(), key.map(str::to_string), None, None, None, checkpoint(0)).unwrap()
}

fn run<'a>(d: &'a Data, id: u128) -> &'a hudson_core::store::Run {
    d.runs.iter().find(|r| r.meta.id == id).unwrap()
}

fn call() -> ToolCall {
    ToolCall {
        call_id: "c1".to_string(),
        name: "lookup_order".to_string(),
        arguments: "{\"order_id\":\"123\"}".to_string(),
        json: "{\"call_id\":\"c1\",\"name\":\"lookup_order\",\"arguments\":{\"order_id\":\"123\"}}".to_string(),
    }
}

fn model_request() -> ModelRequest {
    ModelRequest { model: "fixture".to_string(), instructions: "Help with orders".to_string(), tools: "[]".to_string(), json: "{}".to_string() }
}

fn transition(step: u64, action: Action) -> Transition {
    Transition { checkpoint: checkpoint(step), action, checkpoint_bytes: 16, action_bytes: 16 }
}


fn call_n(n: u32) -> ToolCall {
    ToolCall {
        call_id: format!("c{n}"),
        name: "lookup_order".to_string(),
        arguments: format!("{{\"order_id\":\"{n}\"}}"),
        json: format!("{{\"call_id\":\"c{n}\",\"name\":\"lookup_order\",\"arguments\":{{\"order_id\":\"{n}\"}}}}"),
    }
}

/// A parent run whose step runs two tool calls; the first is dispatched.
fn parent_with_tools(d: &mut Data) -> (u128, u128, u128) {
    let id = submit(d, None);
    tick(d, &actor(), id, &None, 1).unwrap();
    let calls = vec![call_n(1), call_n(2)];
    let input = Input::Model { response: ModelResponse::ToolCalls { calls: calls.clone(), json: "{}".to_string() } };
    let revision = run(d, id).revision;
    commit_transition(d, &actor(), id, revision, &input, &config(), transition(1, Action::ExecuteTools { calls })).unwrap();
    match tick(d, &actor(), id, &None, 2).unwrap() {
        TickStep::Execute { operation_id, attempt_id } => (id, operation_id, attempt_id),
        other => panic!("expected execution, got {other:?}"),
    }
}

fn options(key: Option<&str>, deps: &[&str], cap: Option<u32>) -> DelegationOptions {
    DelegationOptions { task_key: key.map(str::to_string), depends_on: deps.iter().map(|k| k.to_string()).collect(), max_model_calls: cap }
}

fn delegate(d: &mut Data, op: u128, input: &str, o: DelegationOptions) -> Result<u128, Error> {
    submit_delegated(d, &actor(), agent_ref(), input.to_string(), op, o, None, checkpoint(0))
}

#[test]
fn a_delegated_child_is_linked_narrowed_and_idempotent() {
    let mut d = store(false);
    let (parent, op, _) = parent_with_tools(&mut d);
    let child = delegate(&mut d, op, "{\"order_id\":\"9\"}", options(Some("lookup"), &[], Some(3))).unwrap();
    let c = run(&d, child);
    assert_eq!(c.parent_operation, Some(op));
    assert_eq!(c.status, RunStatus::Queued);
    assert_eq!(c.limits.max_model_calls, 3);
    assert_eq!(c.limits.max_operations, Limits::default().max_operations);
    assert_eq!(c.request_key.as_deref().map(|k| k.starts_with("delegate:")), Some(true));
    let task = team_task(&d, &actor(), child).unwrap().unwrap();
    assert_eq!(task.parent_run, parent);
    assert_eq!(task.root_run, parent);
    assert_eq!(task.task_key, "lookup");
    assert!(task.dependencies.is_empty());
    assert!(team_task(&d, &actor(), parent).unwrap().is_none());
    // The same delegation from the same operation returns the same child.
    assert_eq!(delegate(&mut d, op, "{\"order_id\":\"9\"}", options(Some("lookup"), &[], Some(3))), Ok(child));
    assert!(matches!(delegate(&mut d, op, "{\"order_id\":\"8\"}", options(Some("lookup"), &[], Some(3))), Err(Error::Invalid(_))));
    assert_eq!(d.runs.len(), 2);
}

#[test]
fn siblings_have_unique_keys_and_name_earlier_prerequisites() {
    let mut d = store(false);
    let (parent, op1, attempt1) = parent_with_tools(&mut d);
    let first = delegate(&mut d, op1, "{\"order_id\":\"1\"}", options(Some("a"), &[], None)).unwrap();
    let result = ToolResult { call_id: "c1".to_string(), outcome: ToolOutcome::Success { value: "{}".to_string() } };
    settle_dispatch(&mut d, op1, attempt1, Ok(OperationResult::Tool { result }), None).unwrap();
    let op2 = match tick(&mut d, &actor(), parent, &None, 3).unwrap() {
        TickStep::Execute { operation_id, .. } => operation_id,
        other => panic!("expected execution, got {other:?}"),
    };
    assert!(matches!(delegate(&mut d, op2, "{\"order_id\":\"2\"}", options(Some("a"), &[], None)), Err(Error::Invalid(_))));
    assert!(matches!(delegate(&mut d, op2, "{\"order_id\":\"2\"}", options(Some("b"), &["missing"], None)), Err(Error::Invalid(_))));
    assert!(matches!(delegate(&mut d, op2, "{\"order_id\":\"2\"}", options(Some("b"), &["a", "a"], None)), Err(Error::Invalid(_))));
    let second = delegate(&mut d, op2, "{\"order_id\":\"2\"}", options(Some("b"), &["a"], None)).unwrap();
    assert_eq!(team_task(&d, &actor(), second).unwrap().unwrap().dependencies, vec![first]);
}

#[test]
fn delegation_requires_an_active_tool_operation_and_valid_options() {
    let mut d = store(false);
    let (parent, op, _) = parent_with_tools(&mut d);
    assert_eq!(delegate(&mut d, op + 1000, "{}", options(None, &[], None)), Err(Error::NotFound));
    assert!(matches!(delegate(&mut d, op, "{}", options(Some("bad key"), &[], None)), Err(Error::Invalid(_))));
    assert!(matches!(delegate(&mut d, op, "{}", options(None, &[], Some(0))), Err(Error::Invalid(_))));
    let pending = run(&d, parent).pending_operations[1];
    assert!(matches!(delegate(&mut d, pending, "{}", options(None, &[], None)), Err(Error::Invalid(_))));
    let stranger = Actor { workspace_id: "acme".to_string(), id: "nobody".to_string() };
    assert_eq!(submit_delegated(&mut d, &stranger, agent_ref(), "{}".to_string(), op, options(None, &[], None), None, checkpoint(0)), Err(Error::NotFound));
    assert!(matches!(delegate(&mut d, op, "[1]", options(None, &[], None)), Err(Error::Invalid(_))));
    // Without a task key, the operation names the task.
    let child = delegate(&mut d, op, "{}", options(None, &[], None)).unwrap();
    let key = team_task(&d, &actor(), child).unwrap().unwrap().task_key.clone();
    assert_eq!(key, format!("{}", uuid::Uuid::from_u128(op)));
}

#[test]
fn coordination_policies_bound_before_runs_limit_teams() {
    let mut d = store(false);
    let tight = CoordinationPolicy { max_children: 1, max_repeated_task: 1, child_max_model_calls: 2, child_max_operations: 4, child_max_harness_steps: 8 };
    let wrong = CoordinationPolicy { max_repeated_task: 2, ..tight };
    assert!(matches!(bind_coordination_policy(&mut d, "acme", &agent_ref(), &wrong), Err(Error::Invalid(_))));
    let missing = VersionRef { id: "nobody".to_string(), version: 1 };
    assert_eq!(bind_coordination_policy(&mut d, "acme", &missing, &tight), Err(Error::NotFound));
    bind_coordination_policy(&mut d, "acme", &agent_ref(), &tight).unwrap();
    bind_coordination_policy(&mut d, "acme", &agent_ref(), &tight).unwrap();
    let other = CoordinationPolicy { max_children: 2, ..tight };
    assert!(matches!(bind_coordination_policy(&mut d, "acme", &agent_ref(), &other), Err(Error::Conflict(_))));
    let (parent, op1, attempt1) = parent_with_tools(&mut d);
    let child = delegate(&mut d, op1, "{}", options(Some("a"), &[], None)).unwrap();
    assert_eq!(run(&d, child).limits.max_model_calls, 2);
    assert_eq!(run(&d, child).limits.max_operations, 4);
    assert_eq!(run(&d, child).limits.max_harness_steps, 8);
    let result = ToolResult { call_id: "c1".to_string(), outcome: ToolOutcome::Success { value: "{}".to_string() } };
    settle_dispatch(&mut d, op1, attempt1, Ok(OperationResult::Tool { result }), None).unwrap();
    let op2 = match tick(&mut d, &actor(), parent, &None, 3).unwrap() {
        TickStep::Execute { operation_id, .. } => operation_id,
        other => panic!("expected execution, got {other:?}"),
    };
    assert!(matches!(delegate(&mut d, op2, "{}", options(Some("b"), &[], None)), Err(Error::Invalid(_))));
    // Runs exist now: another agent version must bind before it starts.
    let mut late = store(false);
    submit(&mut late, None);
    assert!(matches!(bind_coordination_policy(&mut late, "acme", &agent_ref(), &tight), Err(Error::Conflict(_))));
}
