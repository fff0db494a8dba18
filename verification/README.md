# workspace_manager

The workspace manager of Gitea Code Spaces. It lets Gitea users log in with
OAuth, creates a code-server Docker container per workspace, and hands the
containers git credentials for their own repository only.

- `src/` is the library, written in Verus: the workspace and session
  stores, configuration from the environment, the naming of containers,
  the planning of shared bind mounts, URL and header inference, and every
  decision the HTTP API makes. Each function carries a contract that Verus
  proves; the public proof functions state the laws that hold across calls
  (a stored workspace is found by its id, an OAuth state is used once,
  credentials stay with their workspace, saved workspaces load back the
  same, ...).
- `app/` is the service around it: the axum routes, the HTTP calls to
  Gitea, `docker` invocations, and reading and writing the data directory.
- `tests/` runs the library on concrete values.
