use hudson_core::evaluation::{evaluation_report, CaseResult};
use hudson_core::primitives::millis_to_u64;
use hudson_core::budgets::BudgetedModel;
use hudson_core::definitions::{publish_agent, publish_tool};
use hudson_core::dispatch::{settle_dispatch, ExecutionError};
use hudson_core::harness::{Action, Checkpoint, Config, Input, ModelRequest, ModelResponse, ToolCall, ToolOutcome, ToolResult, Transition};
use hudson_core::models::{Actor, Agent, AgentTool, Effect, EventType, Execution, Limits, OperationStatus, RunStatus, Tool, TokenUsage, VersionRef, WaitReason, SCHEMA_VERSION};
use hudson_core::store::{Data, OperationRequest, OperationResult, Policy};
use hudson_core::submit::submit_scheduled;
use hudson_core::tick::{after_dispatch, commit_transition, tick, TickStep};
use hudson_core::Error;

fn actor() -> Actor {
    Actor { workspace_id: "acme".to_string(), id: "svc".to_string() }
}

fn tool_ref() -> VersionRef {
    VersionRef { id: "lookup".to_string(), version: 1 }
}

fn agent_ref() -> VersionRef {
    VersionRef { id: "orders".to_string(), version: 1 }
}

fn tool() -> Tool {
    Tool {
        id: "lookup".to_string(),
        workspace_id: "acme".to_string(),
        version: 1,
        schema_version: SCHEMA_VERSION,
        name: "lookup_order".to_string(),
        description: "Look up an order".to_string(),
        input_schema: "{\"type\":\"object\"}".to_string(),
        output_schema: None,
        execution: Execution::Registered { key: "orders.lookup".to_string() },
        credential_ref: None,
        policy_ref: "orders".to_string(),
        effect: Effect::Read,
        created_at: 1,
    }
}

fn agent() -> Agent {
    Agent {
        id: "orders".to_string(),
        workspace_id: "acme".to_string(),
        version: 1,
        schema_version: SCHEMA_VERSION,
        name: "Orders".to_string(),
        allow_user_input: false,
        instructions: "Help with orders".to_string(),
        model: "fixture".to_string(),
        tools: vec![AgentTool { tool_ref: tool_ref(), alias: "lookup_order".to_string() }],
        input_schema: Some("{\"type\":\"object\"}".to_string()),
        output_schema: None,
        limits: Limits::default(),
        created_at: 1,
    }
}

fn config() -> Config {
    Config {
        instructions: "Help with orders".to_string(),
        allow_user_input: false,
        model: "fixture".to_string(),
        tools: "[]".to_string(),
        max_context_bytes: 65536,
    }
}

fn store(require_approval: bool) -> Data {
    let mut d = Data::new();
    publish_tool(&mut d, tool()).unwrap();
    publish_agent(&mut d, agent()).unwrap();
    let policy = Policy { actors: vec!["svc".to_string()], approvers: vec!["boss".to_string()], require_approval };
    d.ensure_policy(&"acme".to_string(), &"orders".to_string(), policy).unwrap();
    d
}

fn checkpoint(step: u64) -> Checkpoint {
    Checkpoint { step, payload: format!("{{\"step\":{step}}}") }
}

fn submit(d: &mut Data, key: Option<&str>) -> u128 {
    submit_scheduled(d, &actor(), agent_ref(), "{\"order_id\":\"123\"}".to_string(), key.map(str::to_string), None, None, None, checkpoint(0)).unwrap()
}

fn run<'a>(d: &'a Data, id: u128) -> &'a hudson_core::store::Run {
    d.runs.iter().find(|r| r.meta.id == id).unwrap()
}

fn call() -> ToolCall {
    ToolCall {
        call_id: "c1".to_string(),
        name: "lookup_order".to_string(),
        arguments: "{\"order_id\":\"123\"}".to_string(),
        json: "{\"call_id\":\"c1\",\"name\":\"lookup_order\",\"arguments\":{\"order_id\":\"123\"}}".to_string(),
    }
}

fn model_request() -> ModelRequest {
    ModelRequest { model: "fixture".to_string(), instructions: "Help with orders".to_string(), tools: "[]".to_string(), json: "{}".to_string() }
}

fn transition(step: u64, action: Action) -> Transition {
    Transition { checkpoint: checkpoint(step), action, checkpoint_bytes: 16, action_bytes: 16 }
}

/// Drive a run through a model call, a tool batch, a verification and completion.
#[test]
fn a_run_completes_through_model_tool_and_verification_steps() {
    let mut d = store(false);
    let id = submit(&mut d, Some("k1"));
    assert_eq!(run(&d, id).status, RunStatus::Queued);
    assert_eq!(tick(&mut d, &actor(), id, &None, 10).unwrap(), TickStep::Advance);

    // Step 1: the loop asks for a model call.
    let input = run(&d, id).next_input.clone().unwrap();
    let revision = run(&d, id).revision;
    commit_transition(&mut d, &actor(), id, revision, &input, &config(), transition(1, Action::CallModel { request: model_request() })).unwrap();
    assert_eq!(run(&d, id).status, RunStatus::Running);
    assert_eq!(run(&d, id).pending_operations.len(), 1);
    assert_eq!(run(&d, id).usage.model_calls, 1);
    let (op, attempt) = match tick(&mut d, &actor(), id, &None, 11).unwrap() {
        TickStep::Execute { operation_id, attempt_id } => (operation_id, attempt_id),
        other => panic!("expected execution, got {other:?}"),
    };
    let response = ModelResponse::ToolCalls { calls: vec![call()], json: "{\"tool_calls\":[]}".to_string() };
    settle_dispatch(&mut d, op, attempt, Ok(OperationResult::Model { response }), Some(TokenUsage { input_tokens: 5, output_tokens: 7 })).unwrap();
    assert_eq!(run(&d, id).usage.reported_input_tokens, 5);
    after_dispatch(&mut d, &actor(), id).unwrap();
    assert!(matches!(run(&d, id).next_input, Some(Input::Model { .. })));

    // Step 2: the loop executes the model's tool calls.
    assert_eq!(tick(&mut d, &actor(), id, &None, 12).unwrap(), TickStep::Advance);
    let input = run(&d, id).next_input.clone().unwrap();
    let revision = run(&d, id).revision;
    commit_transition(&mut d, &actor(), id, revision, &input, &config(), transition(2, Action::ExecuteTools { calls: vec![call()] })).unwrap();
    let (op, attempt) = match tick(&mut d, &actor(), id, &None, 13).unwrap() {
        TickStep::Execute { operation_id, attempt_id } => (operation_id, attempt_id),
        other => panic!("expected execution, got {other:?}"),
    };
    let result = ToolResult { call_id: "c1".to_string(), outcome: ToolOutcome::Success { value: "{\"status\":\"shipped\"}".to_string() } };
    settle_dispatch(&mut d, op, attempt, Ok(OperationResult::Tool { result }), None).unwrap();
    after_dispatch(&mut d, &actor(), id).unwrap();
    match &run(&d, id).next_input {
        Some(Input::Tools { results }) => assert_eq!(results.len(), 1),
        other => panic!("expected tool results, got {other:?}"),
    }

    // Step 3: completion before a passed check is refused and fails the run's step.
    let input = run(&d, id).next_input.clone().unwrap();
    let revision = run(&d, id).revision;
    let refused = commit_transition(&mut d, &actor(), id, revision, &input, &config(), transition(3, Action::Complete { output: "{\"ok\":true}".to_string() }));
    assert!(matches!(refused, Err(Error::Invalid(_))));
    assert_eq!(run(&d, id).revision, revision);

    let events: Vec<EventType> = d.logs.iter().find(|l| l.run_id == id).unwrap().events.iter().map(|e| e.event_type).collect();
    assert_eq!(events[0], EventType::RunCreated);
    for (k, e) in d.logs.iter().find(|l| l.run_id == id).unwrap().events.iter().enumerate() {
        assert_eq!(e.sequence, k as u64 + 1);
    }
}

#[test]
fn a_request_key_returns_the_same_run_and_conflicts_on_changed_input() {
    let mut d = store(false);
    let first = submit(&mut d, Some("same"));
    let again = submit(&mut d, Some("same"));
    assert_eq!(first, again);
    assert_eq!(d.runs.len(), 1);
    let changed = submit_scheduled(&mut d, &actor(), agent_ref(), "{\"order_id\":\"999\"}".to_string(), Some("same".to_string()), None, None, None, checkpoint(0));
    assert!(matches!(changed, Err(Error::Conflict(_))));
}

#[test]
fn submission_validates_actor_key_agent_and_input() {
    let mut d = store(false);
    let blank = Actor { workspace_id: "acme".to_string(), id: " ".to_string() };
    assert_eq!(submit_scheduled(&mut d, &blank, agent_ref(), "{}".to_string(), None, None, None, None, checkpoint(0)), Err(Error::Denied));
    let long_key = Some("k".repeat(257));
    assert!(matches!(submit_scheduled(&mut d, &actor(), agent_ref(), "{}".to_string(), long_key, None, None, None, checkpoint(0)), Err(Error::Invalid(_))));
    let missing = VersionRef { id: "other".to_string(), version: 1 };
    assert_eq!(submit_scheduled(&mut d, &actor(), missing, "{}".to_string(), None, None, None, None, checkpoint(0)), Err(Error::NotFound));
    assert!(matches!(submit_scheduled(&mut d, &actor(), agent_ref(), "[1]".to_string(), None, None, None, None, checkpoint(0)), Err(Error::Invalid(_))));
    assert_eq!(d.runs.len(), 0);
}

#[test]
fn a_tool_that_needs_approval_waits_and_resumes_after_approval() {
    let mut d = store(true);
    let id = submit(&mut d, None);
    assert_eq!(tick(&mut d, &actor(), id, &None, 10).unwrap(), TickStep::Advance);
    let response = ModelResponse::ToolCalls { calls: vec![call()], json: "{}".to_string() };
    let input = Input::Model { response };
    let revision = run(&d, id).revision;
    // Tool calls must reproduce the step's model response.
    commit_transition(&mut d, &actor(), id, revision, &input, &config(), transition(1, Action::ExecuteTools { calls: vec![call()] })).unwrap();
    assert_eq!(tick(&mut d, &actor(), id, &None, 11).unwrap(), TickStep::Done);
    let op = run(&d, id).pending_operations[0];
    assert_eq!(run(&d, id).status, RunStatus::Waiting);
    assert_eq!(run(&d, id).wait, Some(WaitReason::Approval { operation_id: op }));
    let stranger = Actor { workspace_id: "acme".to_string(), id: "nobody".to_string() };
    assert_eq!(hudson_core::runtime::approve(&mut d, &stranger, op, true, 20, 100), Err(Error::Denied));
    let boss = Actor { workspace_id: "acme".to_string(), id: "boss".to_string() };
    hudson_core::runtime::approve(&mut d, &boss, op, true, 20, 100).unwrap();
    assert_eq!(run(&d, id).status, RunStatus::Running);
    match tick(&mut d, &actor(), id, &None, 30).unwrap() {
        TickStep::Execute { operation_id, .. } => assert_eq!(operation_id, op),
        other => panic!("expected execution, got {other:?}"),
    }
    // After the approval expires, the same operation would wait again.
    let o = d.operations.iter().find(|o| o.meta.id == op).unwrap();
    assert_eq!(o.status, OperationStatus::Running);
}

#[test]
fn a_stale_or_uncertain_execution_result_is_refused_or_kept_uncertain() {
    let mut d = store(false);
    let id = submit(&mut d, None);
    tick(&mut d, &actor(), id, &None, 1).unwrap();
    let input = run(&d, id).next_input.clone().unwrap();
    let revision = run(&d, id).revision;
    commit_transition(&mut d, &actor(), id, revision, &input, &config(), transition(1, Action::CallModel { request: model_request() })).unwrap();
    let (op, attempt) = match tick(&mut d, &actor(), id, &None, 2).unwrap() {
        TickStep::Execute { operation_id, attempt_id } => (operation_id, attempt_id),
        other => panic!("expected execution, got {other:?}"),
    };
    let stale = settle_dispatch(&mut d, op, attempt.wrapping_add(1), Err(ExecutionError::Failed("x".to_string())), None);
    assert!(matches!(stale, Err(Error::Conflict(_))));
    settle_dispatch(&mut d, op, attempt, Err(ExecutionError::Unknown("timeout".to_string())), None).unwrap();
    after_dispatch(&mut d, &actor(), id).unwrap();
    assert_eq!(run(&d, id).status, RunStatus::Waiting);
    assert_eq!(run(&d, id).wait, Some(WaitReason::Reconciliation { operation_id: op }));
    // Abandoning the model response fails the operation without replaying it.
    hudson_core::recovery::abandon_model_response(&mut d, &actor(), op, "process exit confirmed").unwrap();
    let o = d.operations.iter().find(|o| o.meta.id == op).unwrap();
    assert_eq!(o.status, OperationStatus::Failed);
    assert_eq!(o.attempts.len(), 1);
    assert_eq!(o.attempts[0].status, OperationStatus::Unknown);
    assert!(hudson_core::recovery::abandon_model_response(&mut d, &actor(), op, "again").is_err());
}

#[test]
fn cancellation_marks_the_run_and_settles_it() {
    let mut d = store(false);
    let id = submit(&mut d, None);
    let tree = hudson_core::runtime::cancel(&mut d, &actor(), id).unwrap();
    assert_eq!(tree, vec![id]);
    assert_eq!(run(&d, id).status, RunStatus::Cancelling);
    hudson_core::runtime::finish_cancellation(&mut d, &actor(), id).unwrap();
    assert_eq!(run(&d, id).status, RunStatus::Cancelled);
    assert_eq!(tick(&mut d, &actor(), id, &None, 5).unwrap(), TickStep::Done);
    let other = Actor { workspace_id: "other".to_string(), id: "svc".to_string() };
    assert_eq!(hudson_core::runtime::cancel(&mut d, &other, id), Err(Error::NotFound));
}

#[test]
fn a_run_bound_to_another_model_budget_is_refused() {
    let mut d = store(false);
    let id = submit(&mut d, None);
    let binding = Some(hudson_core::store::ModelBudgetBinding { workspace: "acme".to_string(), group: "g".to_string() });
    assert!(matches!(tick(&mut d, &actor(), id, &binding, 1), Err(Error::Conflict(_))));
}

#[test]
fn a_submission_takes_the_identifier_it_is_given_unless_taken() {
    let mut d = store(false);
    let id = hudson_core::submit::submit_scheduled_with(&mut d, &actor(), agent_ref(), "{\"order_id\":\"1\"}".to_string(), None, None, None, None, checkpoint(0), 77).unwrap();
    assert_eq!(id, 77);
    assert_eq!(run(&d, 77).status, RunStatus::Queued);
    let before = d.runs.len();
    let again = hudson_core::submit::submit_scheduled_with(&mut d, &actor(), agent_ref(), "{\"order_id\":\"2\"}".to_string(), None, None, None, None, checkpoint(0), 77);
    assert!(matches!(again, Err(Error::Conflict(_))));
    assert_eq!(d.runs.len(), before);
    let other = hudson_core::submit::submit_scheduled_with(&mut d, &actor(), agent_ref(), "{\"order_id\":\"2\"}".to_string(), None, None, None, None, checkpoint(0), 78).unwrap();
    assert_eq!(other, 78);
}

#[test]
fn cancelling_a_tree_settles_every_run() {
    let mut d = store(false);
    let id = submit(&mut d, None);
    let tree = hudson_core::cancellation::cancel_tree(&mut d, &actor(), id).unwrap();
    assert_eq!(tree, vec![id]);
    assert_eq!(run(&d, id).status, RunStatus::Cancelled);
    assert_eq!(run(&d, id).next_input, None);
    let other = Actor { workspace_id: "other".to_string(), id: "svc".to_string() };
    assert_eq!(hudson_core::cancellation::cancel_tree(&mut d, &other, id), Err(Error::NotFound));
    // Settling again leaves a cancelled run as it is.
    let tree = hudson_core::cancellation::cancel_tree(&mut d, &actor(), id).unwrap();
    assert_eq!(tree, vec![id]);
    assert_eq!(run(&d, id).status, RunStatus::Cancelled);
}

fn text_agent() -> Agent {
    Agent { id: "writer".to_string(), input_schema: None, tools: Vec::new(), ..agent() }
}

#[test]
fn delegation_refuses_blank_text_and_reuses_its_child() {
    let mut d = store(false);
    publish_agent(&mut d, text_agent()).unwrap();
    let writer = VersionRef { id: "writer".to_string(), version: 1 };
    let blank = hudson_core::delegation::delegate(&mut d, &actor(), writer.clone(), "\"  \"".to_string(), true, 9, None, checkpoint(0));
    assert!(matches!(blank, Err(Error::Invalid(_))));
    assert!(d.runs.is_empty());
    let child = hudson_core::delegation::delegate(&mut d, &actor(), writer.clone(), "\"draft a note\"".to_string(), true, 9, None, checkpoint(0)).unwrap();
    assert_eq!(run(&d, child).request_key, Some("delegate:00000000-0000-0000-0000-000000000009".to_string()));
    // Operation 9 is not stored here: the child stays unattached.
    assert_eq!(run(&d, child).parent_operation, None);
    let again = hudson_core::delegation::delegate(&mut d, &actor(), writer, "\"draft a note\"".to_string(), true, 9, None, checkpoint(0)).unwrap();
    assert_eq!(again, child);
    assert_eq!(d.runs.len(), 1);
    // The parent cannot join a child that no operation of it delegated.
    assert_eq!(hudson_core::delegation::join_delegate(&d, &actor(), child, 9, &VersionRef { id: "writer".to_string(), version: 1 }).err(), Some(Error::Denied));
    assert_eq!(hudson_core::delegation::join_delegate(&d, &actor(), 12345, 9, &agent_ref()).err(), Some(Error::NotFound));
}

#[test]
fn a_report_passes_only_when_every_case_passed() {
    let mut d = store(false);
    let id = submit(&mut d, None);
    let view = || hudson_core::inspection::inspect(&d, &actor(), id).unwrap();
    let result = |name: &str, passed: bool| CaseResult { elapsed_ms: 3, name: name.to_string(), passed, feedback: String::new(), run: view() };
    let report = evaluation_report("digest".to_string(), agent_ref(), vec![result("a", true), result("b", true)]);
    assert!(report.passed);
    assert_eq!(report.cases.len(), 2);
    let report = evaluation_report("digest".to_string(), agent_ref(), vec![result("a", true), result("b", false)]);
    assert!(!report.passed);
    assert_eq!(report.suite_digest, "digest");
}

#[test]
fn clock_readings_saturate_at_the_largest_u64() {
    assert_eq!(millis_to_u64(0), 0);
    assert_eq!(millis_to_u64(1_700_000_000_000), 1_700_000_000_000);
    assert_eq!(millis_to_u64(u64::MAX as u128), u64::MAX);
    assert_eq!(millis_to_u64(u64::MAX as u128 + 1), u64::MAX);
}

#[test]
fn reopening_a_shared_budget_changes_nothing() {
    let mut d = store(false);
    BudgetedModel::new((), &mut d, "acme", "team", 3).unwrap();
    d.admit_model_call("acme", "team").unwrap();
    let budgets = d.model_budgets.len();
    BudgetedModel::new((), &mut d, "acme", "team", 3).unwrap();
    assert_eq!(d.model_budgets.len(), budgets);
    assert_eq!(d.model_budget_usage("acme", "team").unwrap().admitted, 1);
    assert!(matches!(BudgetedModel::new((), &mut d, "acme", "team", 4), Err(Error::Conflict(_))));
    assert!(matches!(BudgetedModel::new((), &mut d, "acme", " ", 4), Err(Error::Invalid(_))));
}
