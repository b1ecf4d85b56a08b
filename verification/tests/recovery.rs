use hudson_core::definitions::{publish_agent, publish_tool};
use hudson_core::dispatch::{settle_dispatch, ExecutionError};
use hudson_core::harness::{Action, Checkpoint, Config, ModelRequest, ModelResponse, ToolCall, Transition};
use hudson_core::models::{Actor, Agent, AgentTool, Effect, Execution, Limits, OperationStatus, RunStatus, Tool, VersionRef, WaitReason, SCHEMA_VERSION};
use hudson_core::recovery::{abandon_model_response, mark_interrupted, record_reconciled_tool_result};
use hudson_core::store::{Data, OperationResult, Policy};
use hudson_core::submit::submit_scheduled;
use hudson_core::tick::{after_dispatch, commit_transition, tick, TickStep};
use hudson_core::Error;

fn actor() -> Actor {
    Actor { workspace_id: "acme".to_string(), id: "svc".to_string() }
}

fn tool_ref() -> VersionRef {
    VersionRef { id: "lookup".to_string(), version: 1 }
}

fn agent_ref() -> VersionRef {
    VersionRef { id: "orders".to_string(), version: 1 }
}

fn tool() -> Tool {
    Tool {
        id: "lookup".to_string(),
        workspace_id: "acme".to_string(),
        version: 1,
        schema_version: SCHEMA_VERSION,
        name: "lookup_order".to_string(),
        description: "Look up an order".to_string(),
        input_schema: "{\"type\":\"object\"}".to_string(),
        output_schema: None,
        execution: Execution::Registered { key: "orders.lookup".to_string() },
        credential_ref: None,
        policy_ref: "orders".to_string(),
        effect: Effect::Read,
        created_at: 1,
    }
}

fn agent() -> Agent {
    Agent {
        id: "orders".to_string(),
        workspace_id: "acme".to_string(),
        version: 1,
        schema_version: SCHEMA_VERSION,
        name: "Orders".to_string(),
        allow_user_input: false,
        instructions: "Help with orders".to_string(),
        model: "fixture".to_string(),
        tools: vec![AgentTool { tool_ref: tool_ref(), alias: "lookup_order".to_string() }],
        input_schema: Some("{\"type\":\"object\"}".to_string()),
        output_schema: None,
        limits: Limits::default(),
        created_at: 1,
    }
}

fn config() -> Config {
    Config {
        instructions: "Help with orders".to_string(),
        allow_user_input: false,
        model: "fixture".to_string(),
        tools: "[]".to_string(),
        max_context_bytes: 65536,
    }
}

fn store(require_approval: bool) -> Data {
    let mut d = Data::new();
    publish_tool(&mut d, tool()).unwrap();
    publish_agent(&mut d, agent()).unwrap();
    let policy = Policy { actors: vec!["svc".to_string()], approvers: vec!["boss".to_string()], require_approval };
    d.ensure_policy(&"acme".to_string(), &"orders".to_string(), policy).unwrap();
    d
}

fn checkpoint(step: u64) -> Checkpoint {
    Checkpoint { step, payload: format!("{{\"step\":{step}}}") }
}

fn submit(d: &mut Data, key: Option<&str>) -> u128 {
    submit_scheduled(d, &actor(), agent_ref(), "{\"order_id\":\"123\"}".to_string(), key.map(str::to_string), None, None, None, checkpoint(0)).unwrap()
}

fn run<'a>(d: &'a Data, id: u128) -> &'a hudson_core::store::Run {
    d.runs.iter().find(|r| r.meta.id == id).unwrap()
}

fn call() -> ToolCall {
    ToolCall {
        call_id: "c1".to_string(),
        name: "lookup_order".to_string(),
        arguments: "{\"order_id\":\"123\"}".to_string(),
        json: "{\"call_id\":\"c1\",\"name\":\"lookup_order\",\"arguments\":{\"order_id\":\"123\"}}".to_string(),
    }
}

fn model_request() -> ModelRequest {
    ModelRequest { model: "fixture".to_string(), instructions: "Help with orders".to_string(), tools: "[]".to_string(), json: "{}".to_string() }
}

fn transition(step: u64, action: Action) -> Transition {
    Transition { checkpoint: checkpoint(step), action, checkpoint_bytes: 16, action_bytes: 16 }
}


fn operation<'a>(d: &'a Data, id: u128) -> &'a hudson_core::store::Operation {
    d.operations.iter().find(|o| o.meta.id == id).unwrap()
}

/// Submit and advance a run until its first operation is dispatched.
fn dispatched(d: &mut Data, action: Action, input_step: bool) -> (u128, u128, u128) {
    let id = submit(d, None);
    assert_eq!(tick(d, &actor(), id, &None, 1).unwrap(), TickStep::Advance);
    let input = if input_step {
        hudson_core::harness::Input::Model { response: ModelResponse::ToolCalls { calls: vec![call()], json: "{}".to_string() } }
    } else {
        run(d, id).next_input.clone().unwrap()
    };
    let revision = run(d, id).revision;
    commit_transition(d, &actor(), id, revision, &input, &config(), transition(1, action)).unwrap();
    match tick(d, &actor(), id, &None, 2).unwrap() {
        TickStep::Execute { operation_id, attempt_id } => (id, operation_id, attempt_id),
        other => panic!("expected execution, got {other:?}"),
    }
}

#[test]
fn interrupted_attempt_is_fenced_and_never_replayed() {
    let mut d = store(false);
    // The executor process dies after the dispatch intent commits.
    let (id, op_id, attempt_id) = dispatched(&mut d, Action::CallModel { request: model_request() }, false);
    assert_eq!(operation(&d, op_id).status, OperationStatus::Running);
    assert!(mark_interrupted(&mut d, &actor(), op_id, attempt_id.wrapping_add(1), "process exited").is_err());
    assert!(mark_interrupted(&mut d, &actor(), op_id, attempt_id, "").is_err());
    mark_interrupted(&mut d, &actor(), op_id, attempt_id, "process exit confirmed").unwrap();
    for at in 3..6 {
        assert_eq!(tick(&mut d, &actor(), id, &None, at).unwrap(), TickStep::Done);
    }
    let op = operation(&d, op_id);
    assert_eq!(op.status, OperationStatus::Unknown);
    assert_eq!(op.attempts.len(), 1);
    assert_eq!(op.attempts[0].status, OperationStatus::Unknown);
    assert!(matches!(run(&d, id).wait, Some(WaitReason::Reconciliation { .. })));
    assert!(mark_interrupted(&mut d, &actor(), op_id, attempt_id, "repeat").is_err());
    let usage = run(&d, id).usage.clone();
    assert!(abandon_model_response(&mut d, &actor(), op_id, "").is_err());
    abandon_model_response(&mut d, &actor(), op_id, "response unavailable after process exit").unwrap();
    assert_eq!(tick(&mut d, &actor(), id, &None, 7).unwrap(), TickStep::Done);
    assert_eq!(run(&d, id).status, RunStatus::Failed);
    let op = operation(&d, op_id);
    assert_eq!(op.status, OperationStatus::Failed);
    assert_eq!(op.attempts[0].status, OperationStatus::Unknown);
    assert_eq!(run(&d, id).usage, usage);
    assert!(abandon_model_response(&mut d, &actor(), op_id, "duplicate").is_err());
}

#[test]
fn abandonment_cannot_settle_an_uncertain_tool() {
    let mut d = store(false);
    let (id, op_id, attempt_id) = dispatched(&mut d, Action::ExecuteTools { calls: vec![call()] }, true);
    settle_dispatch(&mut d, op_id, attempt_id, Err(ExecutionError::Unknown("destination timed out".to_string())), None).unwrap();
    after_dispatch(&mut d, &actor(), id).unwrap();
    let Some(WaitReason::Reconciliation { operation_id }) = run(&d, id).wait else {
        panic!("expected uncertainty")
    };
    assert!(abandon_model_response(&mut d, &actor(), operation_id, "not a model").is_err());
    assert_eq!(operation(&d, operation_id).status, OperationStatus::Unknown);
}

#[test]
fn a_reconciled_tool_result_resumes_the_run() {
    let mut d = store(false);
    let (id, op_id, attempt_id) = dispatched(&mut d, Action::ExecuteTools { calls: vec![call()] }, true);
    settle_dispatch(&mut d, op_id, attempt_id, Err(ExecutionError::Unknown("lost".to_string())), None).unwrap();
    after_dispatch(&mut d, &actor(), id).unwrap();
    assert_eq!(run(&d, id).status, RunStatus::Waiting);
    assert!(matches!(record_reconciled_tool_result(&mut d, &actor(), op_id, "{}".to_string(), " "), Err(Error::Invalid(_))));
    let other = Actor { workspace_id: "other".to_string(), id: "svc".to_string() };
    assert_eq!(record_reconciled_tool_result(&mut d, &other, op_id, "{}".to_string(), "receipt"), Err(Error::NotFound));
    record_reconciled_tool_result(&mut d, &actor(), op_id, "{\"status\":\"shipped\"}".to_string(), "receipt 42").unwrap();
    assert_eq!(operation(&d, op_id).status, OperationStatus::Succeeded);
    assert!(matches!(operation(&d, op_id).result, Some(OperationResult::Tool { .. })));
    assert_eq!(run(&d, id).status, RunStatus::Running);
    assert_eq!(run(&d, id).wait, None);
    assert!(matches!(record_reconciled_tool_result(&mut d, &actor(), op_id, "{}".to_string(), "again"), Err(Error::Conflict(_))));
}
