# nivasa_http

HTTP primitives for the Nivasa framework, verified with Verus: request and
response wrappers, the request lifecycle state machine, guards, CORS,
middleware decisions, exception filters, multipart uploads, logging levels,
server-sent events, GraphQL envelopes and health aggregation.

## Layout

- `src/` is the verified library. Every function carries a contract, and the
  laws that relate several functions are public proof functions (for example
  the lifecycle laws in `pipeline.rs`, the filter precedence laws in
  `dispatch.rs`, the request-id law in `middleware.rs`).
  - `pipeline.rs`: lifecycle states, events and the transition table, and the
    pipeline that drives a request through them.
  - `dispatch.rs`: the decisions the server takes after each piece of work
    (route lookup, middleware, guards, pipes, handler, exception filters),
    request identity and response finalisation.
  - `request.rs`, `response.rs`, `body.rs`, `headers.rs`: the wrappers.
  - `guards.rs`, `cors.rs`, `middleware.rs`, `actions.rs`, `upload.rs`,
    `logging.rs`, `graphql.rs`, `health.rs`, `throttling.rs`, `debug.rs`.
  - `text.rs`, `assoc.rs`: text and association-list helpers with their lemmas.
- `app/` is the runtime around it: the hyper/tokio server and its lifecycle
  loop, the async traits applications implement (middleware, interceptors,
  exception filters, health indicators), serde and `Display` surfaces, and
  the `tracing` subscriber.
- `tests/` exercises the library on concrete values.
