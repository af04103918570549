# vicode

The decision logic of a coding agent with tabs and subagents, verified with
Verus.

- `src/` is the verified library:
  - `ledger`, `agent_core`, `reap`, `events`, `status`, `tool`: an agent's task
    bookkeeping, its decision rules, the resolution of finished tasks, the
    events it exchanges and the state it keeps;
  - `router/`: the agent graph (spawning under a per-tab cap, messages,
    waits that never close a cycle, liveness, archival, restore at startup);
  - `subagent`: workdir diffs and the reports handed back to a parent;
  - `bwrap`, `gitops`, `config`, `cli`, `id`, `text`: sandbox and git
    command lines, configuration checks, agent ids and text helpers.
- `app/` is the runtime around it: config parsing, the sandboxed shell, git
  plumbing, the task executor and the router's event loop.
- `tests/` exercises the library on concrete values.

Keyed collections are vectors of `(key, value)` pairs whose keys are
distinct by the owning type's well-formedness (`wf()`, `keys_distinct()`):
the providers and assistants of a configuration, the agent graph, the
waiters and the set of ids ever allocated. Their keys are strings or
`AgentId`s, and Verus proves next to nothing of a std `HashMap`,
`BTreeMap` or `BTreeSet` keyed by a `String` or by a type whose `Eq`, `Hash`
or `Ord` comes from `derive`; a vector with a stated no-duplicates invariant
keeps every lookup, insertion and removal proved, and keeps insertion order,
which the configuration's provider and assistant tables rely on.
