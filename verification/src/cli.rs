//! The command-line client's requests: its commands, the identifiers it puts
//! in request paths, and the route of each command.
use vstd::prelude::*;
use crate::error::{invalid, text, unsupported, Error, Result};
use crate::json::{put, put_decimal};

verus! {

/// Client for the local agent API.
pub struct Args {
    pub url: String,
    /// Read the bearer token from this environment variable, never from an argument.
    pub api_token_env: Option<String>,
    pub command: Command,
}

pub enum Command {
    Health,
    Capabilities,
    /// Publish a JSON request containing request_key and tool.
    PublishTool { file: String },
    /// Publish a JSON request containing request_key and agent.
    PublishAgent { file: String },
    Tool { name: String, version: u32 },
    Agent { name: String, version: u32 },
    Start(Start),
    /// Answer a waiting agent; reuse the key when retrying the same reply.
    Reply { run_id: String, question_id: u64, text: String, request_key: String },
    Resume { run_id: String },
    Get { run_id: String },
    Children { run_id: String },
    Operation { operation_id: String },
    Events { run_id: String, after: u64 },
    Approve { operation_id: String, deny: bool },
    Cancel { run_id: String },
}

pub struct Start {
    /// Select an immutable published agent; omit for startup-configured hosts.
    pub agent: Option<String>,
    pub agent_version: Option<u32>,
    /// Submit a plain-text task to the configured agent.
    pub task: Option<String>,
    /// Submit arbitrary JSON from a file; `-` reads standard input.
    pub input_file: Option<String>,
    /// Explicit input for the offline order fixture.
    pub order: Option<String>,
    pub refund: bool,
    pub request_key: Option<String>,
}

pub open spec fn id_char(c: char) -> bool {
    ('0' <= c <= '9') || ('a' <= c <= 'f') || ('A' <= c <= 'F') || c == '-'
}

/// An identifier fit for a request path: hexadecimal digits and hyphens.
pub open spec fn segment_valid(id: Seq<char>) -> bool {
    id.len() > 0 && forall|i: int| 0 <= i < id.len() ==> id_char(#[trigger] id[i])
}

pub fn segment(id: &str) -> (r: Result<&str>)
    ensures
        r is Ok <==> segment_valid(id@),
        r matches Ok(s) ==> s@ == id@,
        r is Err ==> r matches Err(Error::Invalid(_)),
{
    let mut ok = true;
    let mut any = false;
    for c in it: id.chars()
        invariant
            it.seq() == id@,
            any == (it.index() > 0),
            ok == (forall|k: int| 0 <= k < it.index() ==> id_char(#[trigger] id@[k])),
    {
        if !(('0' <= c && c <= '9') || ('a' <= c && c <= 'f') || ('A' <= c && c <= 'F') || c == '-') {
            ok = false;
        }
        any = true;
    }
    if !ok || !any {
        return Err(invalid("invalid ID"));
    }
    Ok(id)
}

#[derive(Clone, Copy, Debug, PartialEq, Eq, Structural)]
pub enum Method {
    Get,
    Post,
}

/// The method and path (below the base URL) that a command requests.
pub open spec fn route_spec(command: Command) -> Option<(Method, Seq<char>)> {
    match command {
        Command::Health => Some((Method::Get, "/health"@)),
        Command::Start(_) => Some((Method::Post, "/runs"@)),
        Command::Reply { run_id, .. } => if segment_valid(run_id@) {
            Some((Method::Post, "/runs/"@ + run_id@ + "/input"@))
        } else {
            None
        },
        Command::Resume { run_id } => if segment_valid(run_id@) {
            Some((Method::Post, "/runs/"@ + run_id@ + "/resume"@))
        } else {
            None
        },
        Command::Get { run_id } => if segment_valid(run_id@) { Some((Method::Get, "/runs/"@ + run_id@)) } else { None },
        Command::Children { run_id } => if segment_valid(run_id@) {
            Some((Method::Get, "/runs/"@ + run_id@ + "/children"@))
        } else {
            None
        },
        Command::Operation { operation_id } => if segment_valid(operation_id@) {
            Some((Method::Get, "/operations/"@ + operation_id@))
        } else {
            None
        },
        Command::Events { run_id, after } => if segment_valid(run_id@) {
            Some((Method::Get, "/runs/"@ + run_id@ + "/events?after="@ + crate::primitives::decimal(after as nat)))
        } else {
            None
        },
        Command::Approve { operation_id, .. } => if segment_valid(operation_id@) {
            Some((Method::Post, "/operations/"@ + operation_id@ + "/approval"@))
        } else {
            None
        },
        Command::Cancel { run_id } => if segment_valid(run_id@) {
            Some((Method::Post, "/runs/"@ + run_id@ + "/cancel"@))
        } else {
            None
        },
        _ => None,
    }
}

fn path_of(prefix: &str, id: &str, suffix: &str) -> (r: Result<String>)
    ensures
        r is Ok <==> segment_valid(id@),
        r matches Ok(p) ==> p@ == prefix@ + id@ + suffix@,
        r is Err ==> r matches Err(Error::Invalid(_)),
{
    let s = segment(id)?;
    let mut p = text(prefix);
    put(&mut p, s);
    put(&mut p, suffix);
    Ok(p)
}

/// The request of a command. Every identifier must be a valid path segment;
/// the publication and catalog commands have no route in this client.
pub fn route(command: &Command) -> (r: Result<(Method, String)>)
    ensures
        r is Ok <==> route_spec(*command) is Some,
        r matches Ok((m, p)) ==> route_spec(*command) == Some((m, p@)),
{
    proof {
        reveal_strlit("");
    }
    match command {
        Command::Health => Ok((Method::Get, text("/health"))),
        Command::Start(_) => Ok((Method::Post, text("/runs"))),
        Command::Reply { run_id, .. } => Ok((Method::Post, path_of("/runs/", run_id.as_str(), "/input")?)),
        Command::Resume { run_id } => Ok((Method::Post, path_of("/runs/", run_id.as_str(), "/resume")?)),
        Command::Get { run_id } => {
            let p = path_of("/runs/", run_id.as_str(), "")?;
            proof {
                assert(p@ =~= "/runs/"@ + run_id@);
            }
            Ok((Method::Get, p))
        },
        Command::Children { run_id } => Ok((Method::Get, path_of("/runs/", run_id.as_str(), "/children")?)),
        Command::Operation { operation_id } => {
            let p = path_of("/operations/", operation_id.as_str(), "")?;
            proof {
                assert(p@ =~= "/operations/"@ + operation_id@);
            }
            Ok((Method::Get, p))
        },
        Command::Events { run_id, after } => {
            let mut p = path_of("/runs/", run_id.as_str(), "/events?after=")?;
            put_decimal(&mut p, *after);
            Ok((Method::Get, p))
        },
        Command::Approve { operation_id, .. } => Ok((Method::Post, path_of("/operations/", operation_id.as_str(), "/approval")?)),
        Command::Cancel { run_id } => Ok((Method::Post, path_of("/runs/", run_id.as_str(), "/cancel")?)),
        _ => Err(unsupported("command is not supported by this client")),
    }
}

} // verus!
