# hazshield-ingest

An ingest gateway for plant sensors. Collectors post batches of readings; the
gateway judges each reading against the sensor registry, raises violations on
the hot lane and stores readings on the warm lane.

`src/` is the verified core, a Verus library. It decides; it touches no socket,
file or clock.

| module | what it holds |
| --- | --- |
| `ieee`, `rounding` | floating-point numbers as bits, their exact values, and correctly rounded arithmetic |
| `types`, `text` | the domain's vocabulary, numbers as text |
| `config`, `error`, `health` | configuration and its defaults, batch errors, readiness |
| `registry`, `listener` | the sensor snapshot, and the doorbell that rebuilds it |
| `threshold` | evaluation of a value |
| `limiter`, `limiter_laws`, `exact_laws` | token buckets, in double precision and in exact arithmetic |
| `ingest`, `ingest_laws`, `shield_laws` | a batch on its way through the gateway |
| `warm`, `copy` | the batch writer and the binary COPY format |
| `hot`, `hot_laws`, `spool` | the dispatcher of violations and its spool file |
| `metrics` | the metric table and what the lanes report |
| `plant` | the plan of a realistic plant to seed a database with |

The lanes are state machines. Each hands out an action and the metric updates
that come before it; the driver performs the action and hands back what came of
it. The `law_` functions state what holds over every sequence of events.

`app/` is the process around the core: HTTP, database, stream, files, signals.
Run it with the argument `seed` to build the plant.
