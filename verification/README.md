# roki_daemon

The decisions of the roki daemon, written and proved in Verus. The daemon watches
a Linear workspace, admits issues, runs an orchestrator session per issue, and
keeps worktrees and session directories in order.

- `src/` holds what the daemon decides: the per-issue actor, the state machine and
  its transition table, admission and deduplication of observations, recovery after
  a restart, workflow files and their expansion into state machines, prompts,
  permissions, routing, the backoff curve and the poller, the webhook's answers, the
  agents' tools, and the order in which the daemon starts and stops. Handlers take
  what came of the last action and say what becomes of the state and what to do
  next. Public proof functions named `law_*` state what holds across functions.
- `app/` carries the decisions out: processes, files, sockets, timers and tasks.
- `tests/` runs the library on concrete values.

Times are nanoseconds since an origin of the caller's choosing. Paths are texts.
JSON values are `json::Json`, whose objects keep the order of their entries.

What the library calls outside (`regex`, `jsonschema`, `liquid`, `hex`, `hmac` with
`sha2`, and `serde_json`) stands behind small functions whose doc comments say what
is relied on.
