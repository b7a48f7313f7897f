# bits

A broker for task scheduling. Requests are matched against routes of checks, transforms and
targets; they wait in queues, run on pools of workers, and can outlive the broker that took them.

- `src/` is the library: request identifiers, configuration, routing, queues and dispatchers, user
  limits, durable records, recovery and the broker's own bookkeeping. Every function states what it
  returns and is verified with Verus. What the library promises as a whole is stated by the public
  proof functions whose names start with `law_`.
- `app/` is the server around it: HTTP, NATS, TiKV, metrics, worker pools and the Python module.
  It performs what the library decides and hands back what came of it.
- `tests/` runs the library on concrete values.

Calls into other crates stand behind small functions marked `#[verifier::external_body]`; the
comment above each says what is taken on trust.
