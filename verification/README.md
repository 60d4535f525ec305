# vllm-coldstart-operator

A Kubernetes operator for vLLM inference services that treats cold start as a state of its own,
and a fleet controller that places such services onto GPU nodes. The decisions are a library
written in Verus: what each function returns is stated in its contract and proved.

## Layout

- `src/` - the library.
  - `lib.rs` - a service: its spec, its status and its phase.
  - `deployment.rs` - the Deployment and the Service that the operator makes of a service.
  - `fleet_types.rs` - a fleet, a node's state, the phases of placements and fleets.
  - `fleet_placement.rs`, `fleet_planning.rs` - choosing a node, and nodes for a batch.
  - `fleet_model.rs` - what a reconcile of a fleet amounts to, as a mathematical function.
  - `fleet_controller.rs` - the reconcile, proved to compute that function.
  - `placement_laws.rs`, `fleet_laws.rs` - what holds of every choice and of every reconcile.
  - `reporter.rs`, `exposition.rs` - a node's reporter and the text format that it reads.
  - `metrics.rs` - the labels and gauge values of the operator's metrics.
  - `slots.rs`, `names.rs`, `objects.rs`, `signal.rs`, `clock.rs`, `text.rs` - what the others
    are built on: slots and pins, sets and maps of names, object metadata, measured numbers by
    their bit patterns, points in time, and text.
- `tests/` - its tests.
- `app/` - the program around it: the controllers' loops, the reporter's sensors, HTTP, and the
  resource definitions. Floating-point arithmetic on readings is done here.

## What is taken on trust

Three calls are believed rather than proved, each with its contract beside it: `String::push`
(`text.rs`), and chrono's reading of a time stamp and its difference of two points in time
(`clock.rs`).
