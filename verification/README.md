# duckle

Running data pipelines on a server, and knowing what they touch: schedules and
the claims on them, run locks, alerts, batches, the workspace graph, and the
management console and web editor with their accounts and roles.

* `src/` is the library, in Verus. Its functions state what they return or
  change, and are proved to; only the two that move a JSON value to and from the
  type of `serde_json` state nothing, and stand behind wrappers that do. What is
  promised of the library as a whole stands
  beside the functions it is about, as `law_` proof functions. It opens no file
  and no socket: what the outside brings comes in as a value, and what is to be
  done goes out as one. Calls into other crates are behind small wrappers whose
  doc comments say what is taken on trust.
* `tests/` runs it.
* `app/` is ordinary Rust around it: sockets, files, threads, the clock, the GPU
  and the serialised forms. The engine, the secret store and the credential
  database come in through the traits in `app/parts.rs`.
