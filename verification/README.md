# sagent

The verified core of a local AI agent runtime: the provider stream decoders, tool-call
aggregation and dispatch planning, the approval state machine, restart recovery, and the
framing and timestamps of the JSON-RPC transport. The functions in `src/` carry Verus
contracts and are proved against them, except the few marked `#[verifier::external_body]`
that call the outside crates and std, whose contracts are trusted.

- `src/` — the library, verified by Verus.
  - `sse`, `openai_event`, `openai`, `json`, `types`, `error`, `mock`: the provider side —
    SSE decoding, OpenAI-compatible chunk parsing, response classification, scripted mocks.
  - `tool_call`, `dispatch`, `tool_loop`, `provider_worker`, `tool_worker`: collecting tool
    calls, checking them against the registry, and stepping through a batch and its approvals.
  - `approval`, `ids`: the per-session approval manager and its laws; the manager decides
    every outcome and puts it out for delivery.
  - `recovery`: how a turn left running by a restart is planned and closed, step by step.
  - `turn_lifecycle`: how an active turn ends once, stays active when its end is not
    persisted, and publishes its events only after the store committed its start or end.
  - `session_registry`: which actor serves which session; a running actor is reused, and
    only a session without one gets a new actor.
  - `connection`: how a JSON-RPC connection on stdio or WebSocket shuts down once one of its
    reader, dispatcher and writer tasks ends.
  - `stdio`, `timestamps`, `rpc_service`, `runtime_error`: transport framing, calendar dates
    and timestamp texts, parameter checks, error texts.
  - `text`, `text_collections`: text helpers and text sets and maps used by the above.
- `app/` — ordinary Rust around the library: the async provider traits, the reqwest-based
  OpenAI-compatible adapter, the mock provider driver and local SSE server, the channels that
  hand approval outcomes to their waiters, line reading, the provider worker, reading stored
  facts for recovery, the tokio loop that runs a connection's three tasks as `connection`
  decides, the map of running session actors that `session_registry` keeps, and serde forms
  of the library's data.
- `tests/` — tests of the library, run with the real outside crates.

Not included: the session actor itself, what starts it (store and worker), the JSON-RPC
service and the reading and writing halves of the transports. They stand on the runtime's
agent, store and tools crates, which this project does not have; the decisions they make
(the busy check, the generation check, approval and tool steps, turn endings and their
events, reuse or start of an actor, connection shutdown) are in `src/`.
