# event_driven_sdk

A client that follows a ThogAMM pool on Monad through event subscriptions. One
snapshot seeds the pool model; after that every change comes from pushed headers
and logs, and no chain state is read.

The library under `src/` holds the decisions of that client and is verified with
Verus. It does no I/O.

| Module | What it holds |
| --- | --- |
| `types`, `error` | headers, logs, models, updates and errors |
| `pending` | the proposed blocks with their logs, in replay order |
| `ancestry` | the line of blocks that a finalized header settles |
| `synchronizer` | the reducer, `EventSynchronizer` |
| `json` | the calls into `serde_json` and what is believed of them |
| `wire` | what messages and socket events mean |
| `handshake` | the subscription requests and their answers |
| `seed` | the search for the block to take the snapshot at |
| `client` | the running client, `EventDrivenSdk` |
| `laws`, `stream` | what holds over several notifications and whole streams |
| `replay`, `runs` | what holds of whole runs, for pool models that repeat their results |
| `session` | what holds of a client from its first request to each update |

The program under `app/` runs these decisions: it owns the WebSocket and the
timers, decodes payloads, and replays blocks with `thogamm_model`. The reducer
takes the pool model's functions as arguments, so a caller with a stream of its
own can use `EventSynchronizer` directly.

A source must finish a block's logs before it sends the next header, on one
ordered connection, and send the headers of every commitment stage.
