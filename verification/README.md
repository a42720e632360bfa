# splinter (authorization and pacemaker)

A verified library for two parts of a node of a distributed ledger network:

- **REST API authorization** (`auth`, `authorization`, `permission_map`,
  `authorization_header`, `bearer_token`, `identity`): reading `Authorization` headers and
  bearer tokens, looking up the permission registered for a request, and deciding from the
  identity providers' and authorization handlers' answers whether the request is served.
- **Heartbeat pacemaker** (`pacemaker`): the state of a pacemaker and the decisions of its
  monitor; `app/` runs the monitor's thread.

`src/` is verified; `tests/` runs it; `app/` holds the thread, sleep and channel code.
