# deltu

A self-hosted continuous data processing engine: events arrive over HTTP
or MQTT, pass a pipeline (kind filter, deduplication, tumbling-window
aggregation, deadband change detection), update a bounded state store,
are evaluated by a deterministic rule engine, and fire actions (log,
webhook, AI) whose failures are isolated and counted.

## Layout

- `src/` is the library, written in Verus and verified: every public
  function carries a `requires`/`ensures` contract, and the laws of the
  engine (read after write in the state store, replay suppression,
  once-per-window firing, ordered matches, restore round trip, referential
  integrity of configuration, drop-and-count accounting) are public proof
  functions named `law_*`.
- Numbers are carried as IEEE-754 binary64 bit patterns; the few
  floating-point operations (sums, means, rates) are supplied by the
  embedding program through the `FloatArith` trait.
- Calls into `serde_json` and the system clock go through small trusted
  wrappers whose contracts are stated in their doc comments.
- `app/` is the executable around the library: command-line parsing, the
  HTTP server and worker loop, the MQTT adapter, the webhook transport,
  snapshot files, and the serialized forms of configuration and events.
- `tests/` exercises the library from outside.
