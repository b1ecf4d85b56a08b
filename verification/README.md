# hudson_core

The core of Hudson, a generic agent harness: durable runs that alternate model
turns, tool calls and verification, with policies, budgets, teams of delegated
agents, memory, context paging, credentials and customer-published capabilities.

The rules of that core stand here as functions on the store's data
(`store::Data`) with contracts that Verus proves. The host performs the outside
work (model and tool calls, the agent loop, files and network) and hands the
results back.

The records of the capability tools (memory, context reader, skill loader,
delegation, HTTP) and the policies that guard them are built here; the
executors behind them are the host's. Memory recall's candidate filter and
reply budget, the judging of evaluation cases, the publication of an agent
tree (staged: a failed publication leaves no definition behind) and the
cancellation of a run tree are here; memory recall's ranking (floating point),
driving a case's run, the model and MCP adapters, the MCP tool discovery, and
customer agent publication are not.

## Layout

- `src/` — the verified library, one module per concern:
  - `store`, `models`, `error`, `primitives`, `text`, `json`: the data, its
    well-formedness, and small primitives (ids, time, digests, JSON text).
  - `definitions`, `security`, `budgets`: published agents and tools, policies
    and approvals, shared model-call budgets.
  - `submit`, `scheduling`, `tick`, `dispatch`, `runtime`, `cancellation`,
    `recovery`: admitting runs, scheduling them, the step decision, dispatching
    and settling operations, input, approval, cancellation of run trees and
    recovery of interrupted work.
  - `coordination`, `team`, `delegation`: child runs, task graphs and the
    narrowing of a child's budget.
  - `memory`, `recall`, `context`, `credentials`, `customer`, `publication`,
    `publishing`, `skills`, `configured`, `criteria`, `evaluation`,
    `inspection`, `cli`: the remaining services and their validation rules.
  - `harness`: the agent loop's checkpoint and transition types that the
    runtime records.
- `tests/` — tests of the library on concrete values.
- `app/` — the host: the command-line client, the store handle and run driver,
  the HTTP tool executor, memory recall's ranking, configuration and skill
  package files, and numeric verification criteria.
