# pgbb

A web interface for Postgres: scripts run statement by statement, results
stream to the browser as NDJSON, pages pause for the client, COPY results
download separately, and uncommitted changes wait for confirmation.

The library under `src/` is verified with Verus:

- `pg/` — the frontend/backend protocol: message encoding (`encode`),
  decoding (`decode`), error texts (`display`), MD5 and SCRAM-SHA-256
  authentication (`md5`, `scram`), and connections (`conn`): settings,
  the outgoing queue, the receive buffer and the authentication/startup
  exchange as a state machine.
- `run/` — script execution: the statement splitter (`psqlscan`), the
  NDJSON messages (`json`, `MessageWriter`), the run itself as a state
  machine (`runner`), tokens of paused runs and downloads (`token`,
  `registry`).
- `web/` — what the HTTP handlers answer, the connection options of each
  request, the files of the user interface, and catalog queries.
- `auth.rs` — login tokens sealed with AES-256-GCM.
- `crypto.rs` — the OpenSSL calls the library relies on, with their
  contracts.

`app/` is the program around it: command line, logging, the axum server,
sockets and channels. It drives the library's state machines and does the
I/O they ask for. It reads the SQL of the catalog and enrichment queries
from `sql/` and the user interface from `ui/` at run time.
