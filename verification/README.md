# actant

The core of a distributed task orchestrator, verified with [Verus](https://github.com/verus-lang/verus).

Workflows are graphs of tasks. Every node of the network submits, drives, stores and recovers
workflows, runs their tasks, and takes over the workflows of nodes that have failed. The library
in `src/` makes all decisions and is proved to make the ones its contracts state. The code in
`app/` carries them out: it owns locks, threads, timers, the store on disk and the network.

## Layout

- `src/common.rs`, `src/text.rs`, `src/keymap.rs`, `src/table.rs`: identifiers, texts and maps.
- `src/runtime/state/`: clocks, logs, checkpoints, event journals, conflict-free data types.
- `src/runtime/workflow/`: graphs, executions, schedulers, gossip, failover and workers.
- `src/runtime/workflow/orchestrator/`: what happens to a workflow from submission to its end;
  `dependencies.rs` holds the laws that tasks run after what they depend on.
- `src/runtime/workflow/actor/`: the messages that drive workflows and schedulers.
- `src/store/`, `src/worker/`: the store and the worker of a node that only runs tasks.
- `tests/`: the library as its users see it.
- `app/`: the runtime around the library.

## How it fits together

An operation of the orchestrator changes its state and returns what is to be done on its behalf:
events to append, entries to store or erase, waiters to wake, tasks to cancel. `app/host.rs` does
it. Workers and routers work the same way: an event goes in, the next action comes out.

Theorems about several operations at once are the public proof functions whose names start with
`law_`.
