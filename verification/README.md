# nexa-core

The core of the NexaNet container platform: its domain model, the rules a
deployment spec must follow, restart and health policies, in-memory stores,
and every decision of the orchestrator, written in Verus with their
contracts proved.

## Layout

- `src/` — the verified library (`nexa_core`).
  - `config.rs` — checks of a deployment spec (DNS-safe names, replicas,
    ports, resources).
  - `duration.rs` — durations such as `10s`, `5m`, `500ms`.
  - `domain/models/` — projects, deployments, pods, nodes, routes,
    certificates and subnet allocations.
  - `domain/restart.rs` — restart policies, capped exponential backoff and
    crash-loop detection.
  - `domain/health.rs` — the probe-driven health state machine.
  - `domain/orchestrator.rs` — `OrchestratorCore`: the state of the
    orchestrator and each decision it takes (deploy, scale, stop, suspend,
    resume, reconcile, health reports, container exits, restarts).
  - `domain/scheduler.rs` — memory amounts for scheduling requests.
  - `ports/` — container, proxy and metrics types, and the in-memory
    state, secret and route stores.
  - `keyed.rs`, `text.rs`, `clock.rs` — keyed maps, string maps and text
    helpers, identifiers and the clock.
- `tests/` — tests of the library.
- `app/` — the asynchronous service around the library: the orchestrator
  actor and its handle, the port traits, serde forms of the domain types,
  YAML loading and the weighted scheduler.
