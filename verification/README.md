# o89_core

The core of a site controller, with no hardware underneath: what it keeps, what
it decides and what it answers. The functions of `src/` are proved against their
contracts with Verus, but for the small ones that call into another crate, whose
contracts are relied on; nothing in it does I/O.

| Modules | What they hold |
| --- | --- |
| `tick`, `idents`, `bytes`, `text`, `body` | Time on the tick, handles and slots, byte images |
| `revision`, `readout`, `reset`, `rollcall` | What a board may do, what its pins say, why it reset, who is late |
| `rail`, `rail_turn`, `cuts` | Powering the comms processor, and the recovery ladder's memory |
| `boot_count`, `secret`, `release`, `run_reason`, `store` | The records on the part, and a boot over them |
| `record`, `nor`, `ring` | The event log on NOR: framing, appending, reading, finding it after a boot |
| `reading`, `signals`, `site_rows`, `topology`, `concern`, `site`, `wire` | Readings, descriptors, and what a tick owes the log |
| `wall_clock` | The wall clock, its offers and its audit |
| `req_window`, `request`, `clients` | A client's requests, its commands once each, and the slots |
| `session`, `session_*` | The client protocol: connections, pairing, sessions, requests |

Modules named `*_laws` hold what is true of several functions together;
`ring_model`, `session_model` and `session_steps` hold the mathematics the
contracts speak of.

The protocol's own encoders and key agreements come from the `km43` crate. Each
call into it stands behind a small function whose doc comment says what is
relied on.

`app/` is ordinary Rust around the library: a flash driver as a part the log can
live on, a boot run to its end, the worker that computes key agreements, and the
loop that answers what a session asks for.
