//! Plain-value form of the agent loop's messages, actions and checkpoints.
//! JSON values are carried as their compact JSON text.
use vstd::prelude::*;

verus! {

/// Opaque loop state; `step` counts completed loop transitions.
#[derive(Debug, PartialEq, Eq)]
pub struct Checkpoint {
    pub step: u64,
    pub payload: String,
}

/// A model-requested tool call. `json` is the JSON text of the whole call.
#[derive(Debug, PartialEq, Eq)]
pub struct ToolCall {
    pub call_id: String,
    pub name: String,
    pub arguments: String,
    pub json: String,
}

#[derive(Debug, PartialEq, Eq)]
pub enum ToolOutcome {
    Success { value: String },
    Error { code: String, message: String },
}

#[derive(Debug, PartialEq, Eq)]
pub struct ToolResult {
    pub call_id: String,
    pub outcome: ToolOutcome,
}

/// A model request. `tools` is the JSON text of the advertised tools and
/// `json` the JSON text of the whole request.
#[derive(Debug, PartialEq, Eq)]
pub struct ModelRequest {
    pub model: String,
    pub instructions: String,
    pub tools: String,
    pub json: String,
}

/// A completed model response. `json` is the JSON text of the whole response.
#[derive(Debug, PartialEq, Eq)]
pub enum ModelResponse {
    ToolCalls { calls: Vec<ToolCall>, json: String },
    Final { output: String, json: String },
}

#[derive(Debug, PartialEq, Eq)]
pub enum Input {
    Start { value: String },
    Model { response: ModelResponse },
    Tools { results: Vec<ToolResult> },
    Verification { passed: bool, feedback: String },
    User { value: String },
}

#[derive(Clone, Debug, PartialEq, Eq)]
pub enum Action {
    CallModel { request: ModelRequest },
    ExecuteTools { calls: Vec<ToolCall> },
    Verify { candidate: String },
    Complete { output: String },
    WaitForInput { prompt: String },
    Fail { reason: String },
}

/// One loop transition. The byte sizes are those of the JSON encodings.
#[derive(Clone, Debug, PartialEq, Eq)]
pub struct Transition {
    pub checkpoint: Checkpoint,
    pub action: Action,
    pub checkpoint_bytes: usize,
    pub action_bytes: usize,
}

/// The configuration that a model request must reproduce exactly.
#[derive(Clone, Debug, PartialEq, Eq)]
pub struct Config {
    pub instructions: String,
    pub allow_user_input: bool,
    pub model: String,
    pub tools: String,
    pub max_context_bytes: usize,
}

impl Clone for Checkpoint {
    fn clone(&self) -> (r: Self)
        ensures
            r == *self,
    {
        Checkpoint { step: self.step, payload: self.payload.clone() }
    }
}

impl Clone for ToolCall {
    fn clone(&self) -> (r: Self)
        ensures
            r == *self,
    {
        ToolCall {
            call_id: self.call_id.clone(),
            name: self.name.clone(),
            arguments: self.arguments.clone(),
            json: self.json.clone(),
        }
    }
}

impl Clone for ToolOutcome {
    fn clone(&self) -> (r: Self)
        ensures
            r == *self,
    {
        match self {
            ToolOutcome::Success { value } => ToolOutcome::Success { value: value.clone() },
            ToolOutcome::Error { code, message } => ToolOutcome::Error { code: code.clone(), message: message.clone() },
        }
    }
}

impl Clone for ToolResult {
    fn clone(&self) -> (r: Self)
        ensures
            r == *self,
    {
        ToolResult { call_id: self.call_id.clone(), outcome: self.outcome.clone() }
    }
}

impl Clone for ModelRequest {
    fn clone(&self) -> (r: Self)
        ensures
            r == *self,
    {
        ModelRequest {
            model: self.model.clone(),
            instructions: self.instructions.clone(),
            tools: self.tools.clone(),
            json: self.json.clone(),
        }
    }
}

pub fn copy_calls(v: &Vec<ToolCall>) -> (r: Vec<ToolCall>)
    ensures
        r@ == v@,
{
    let mut out: Vec<ToolCall> = Vec::new();
    let mut i: usize = 0;
    while i < v.len()
        invariant
            i <= v@.len(),
            out@ == v@.take(i as int),
        decreases v@.len() - i,
    {
        out.push(v[i].clone());
        proof {
            assert(v@.take(i as int + 1) =~= v@.take(i as int).push(v@[i as int]));
        }
        i = i + 1;
    }
    assert(v@.take(v@.len() as int) =~= v@);
    out
}

pub fn copy_results(v: &Vec<ToolResult>) -> (r: Vec<ToolResult>)
    ensures
        r@ == v@,
{
    let mut out: Vec<ToolResult> = Vec::new();
    let mut i: usize = 0;
    while i < v.len()
        invariant
            i <= v@.len(),
            out@ == v@.take(i as int),
        decreases v@.len() - i,
    {
        out.push(v[i].clone());
        proof {
            assert(v@.take(i as int + 1) =~= v@.take(i as int).push(v@[i as int]));
        }
        i = i + 1;
    }
    assert(v@.take(v@.len() as int) =~= v@);
    out
}

impl ModelResponse {
    /// Same variant, same content.
    pub open spec fn same(self, o: ModelResponse) -> bool {
        match (self, o) {
            (ModelResponse::ToolCalls { calls: a, json: j }, ModelResponse::ToolCalls { calls: b, json: k }) => a@ == b@ && j == k,
            (ModelResponse::Final { output: a, json: j }, ModelResponse::Final { output: b, json: k }) => a == b && j == k,
            _ => false,
        }
    }

    pub fn copy(&self) -> (r: ModelResponse)
        ensures
            r.same(*self),
    {
        match self {
            ModelResponse::ToolCalls { calls, json } => ModelResponse::ToolCalls { calls: copy_calls(calls), json: json.clone() },
            ModelResponse::Final { output, json } => ModelResponse::Final { output: output.clone(), json: json.clone() },
        }
    }
}

impl Input {
    pub open spec fn same(self, o: Input) -> bool {
        match (self, o) {
            (Input::Start { value: a }, Input::Start { value: b }) => a == b,
            (Input::Model { response: a }, Input::Model { response: b }) => a.same(b),
            (Input::Tools { results: a }, Input::Tools { results: b }) => a@ == b@,
            (Input::Verification { passed: a, feedback: f }, Input::Verification { passed: b, feedback: g }) => a == b && f == g,
            (Input::User { value: a }, Input::User { value: b }) => a == b,
            _ => false,
        }
    }

    pub fn copy(&self) -> (r: Input)
        ensures
            r.same(*self),
    {
        match self {
            Input::Start { value } => Input::Start { value: value.clone() },
            Input::Model { response } => Input::Model { response: response.copy() },
            Input::Tools { results } => Input::Tools { results: copy_results(results) },
            Input::Verification { passed, feedback } => Input::Verification { passed: *passed, feedback: feedback.clone() },
            Input::User { value } => Input::User { value: value.clone() },
        }
    }
}

impl Clone for ModelResponse {
    fn clone(&self) -> (r: Self)
        ensures
            r.same(*self),
    {
        self.copy()
    }
}

impl Clone for Input {
    fn clone(&self) -> (r: Self)
        ensures
            r.same(*self),
    {
        self.copy()
    }
}

} // verus!
