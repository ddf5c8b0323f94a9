# PortalKeeper

PortalKeeper keeps the lines of an OpenWrt router signed in to the portal of a campus network. It
probes each line, finds the portal by its redirect, sends the login form, and takes a line as
online only when a probe passes.

`src/` is the library, verified with Verus: the addresses, the HTTP messages, the login page and
its form, the configuration, the steps of an authentication, the life of a line under the service,
and the status document. `app/` is the program around it: sockets, files, signals and the command
line. `tests/` runs the library on concrete values.

| Module | What it holds |
|---|---|
| `text`, `split`, `number`, `table`, `bytes` | text, numbers and bytes |
| `urls`, `net`, `request` | addresses and requests |
| `http`, `charset` | responses and their bodies |
| `probe` | what a probe of a line says |
| `forms`, `encode`, `login` | the login page and its form |
| `agent`, `auth`, `detect`, `notes` | one authentication, one search for the portal, and what the log says of them |
| `uci`, `settings`, `cli` | configuration and commands |
| `daemon`, `round` | the lines of the service and a round of checks |
| `json`, `status` | the status document |
| `clock`, `logging` | time and the log |

The authentication, the search and the round of checks are machines: each step names the request or
the work it waits for, and a function takes in what came of it. What is not proved are the contracts
of the functions that call `std`, `encoding_rs` and `serde_json`; each says in its comment what it
claims.
