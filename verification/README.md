# edgeless

The orchestration core of an EDGELESS domain, written in Verus: the state of
the orchestrator (nodes, resource providers, active instances, patches), the
choice of nodes for new instances, the handling of nodes that leave, the
deployment requirements and intents, the register of nodes, the in-memory
proxy of the orchestrator's state, and the telemetry and trace records.

Layout:

- `src/` — the verified library. Each module states its data by a view
  (sequences, maps and plain values) and each public function by a contract
  over those views. Laws that relate several functions are public proof
  functions next to them.
- `tests/` — tests on concrete values.
- `app/` — what cannot be verified: the loop that talks to the nodes, the
  writer of the trace file, and the performance samples, which are floating
  point.

Not part of this crate: the WebAssembly and x86 runners of the nodes, which
are built on wasmtime, wasmi and the node runtime's data plane, none of
which is available to this build; and the command-line monitor of the
Redis proxy, which reads Redis and prints floating-point statistics.
