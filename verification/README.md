# httpmate

An HTTP debugging proxy: it runs a local proxy, intercepts HTTP and HTTPS
traffic with a locally generated certificate authority, records every request
and response, and keeps the history in SQLite.

The library under `src/` holds the logic, verified with Verus. It does no I/O:
it decides, computes and says what is to be done. The application under `app/`
owns sockets, TLS streams, files, the database connection and the desktop
shell, and asks the library at every step.

## Layout

| Module | What it holds |
|---|---|
| `uri`, `passthrough`, `proxy` | request targets, which hosts are tunneled, what is done with a request and recorded of it |
| `headers`, `tee` | stored headers, hop-by-hop fields, body capture |
| `intercept`, `chain` | transactions in flight, the recorder, the pass through the interceptor chain |
| `upstream` | extra roots for upstream TLS |
| `certs`, `ca` | certificate plans, the authority, the leaf cache |
| `store`, `query`, `encode` | rows, bodies, statements, and the steps of the store's operations |
| `history`, `retention`, `rounds` | what the store holds, what it keeps, and what a read sees |
| `networksetup`, `macos` | the system proxy, trust, secrets |
| `controller`, `config`, `events`, `pump` | the surface for shells |

Functions named `law_…` state what holds of the library as a whole: that a
stored exchange is shown as it was, that a search is a substring search, that
pruning keeps a session within its caps and the newest transactions in it, that
a read sees every insert that was answered before it, that turning the system
proxy on and off again gives back what was there, even if it is interrupted.

Calls into other crates stand behind small wrappers. Each says in its comment
which function it calls and what is taken on trust of it.
