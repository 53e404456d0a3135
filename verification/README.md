# toy_edge_worker

A small multi-tenant runtime for JavaScript workers at the edge. Many tenants
share one process; each has a script in a V8 isolate of its own. A request is
routed to a tenant by its host or its path, handled by the thread of that
tenant, and kept within limits of CPU time, memory and wall-clock time.

## Layout

- `src/` is the library. It holds everything that is decided: routing, the pool
  of warm workers, the counters, the watchdog, the operations that scripts start,
  the event loop, the stages of starting a worker and of handling a request, and
  the answers of the HTTP front end. It is verified with Verus, but for the
  calls out of it that are listed below; the functions named `law_...` state what
  holds across functions.
- `app/` is the program `tew` around it: the command line, files, sockets,
  threads, the calls into V8, and the Web API that worker scripts see.
- `tests/` runs the library on concrete values.

## Modules of the library

| module | what it decides |
|---|---|
| `router` | configuration defaults; which tenant a request goes to |
| `pool` | which workers stay warm |
| `metrics` | what is counted per tenant |
| `limits` | when a script is terminated; what counts as CPU time |
| `ops` | which promise an operation settles when it finishes |
| `event_loop` | how a worker waits for a promise |
| `load` | how a worker starts |
| `worker` | how a worker handles a request |
| `server` | how a request is answered, and by which thread |
| `thread` | what a worker thread does next |
| `options` | what the command line and the configuration ask for |
| `error`, `protocol`, `env`, `http`, `text` | the values that these share |
| `tally` | counting, for the laws |

Points in time and spans of time are whole nanoseconds throughout the library.

## What is trusted

The library calls other crates and parts of the standard library that have no
specification. Verus takes the contracts of these calls as they stand; the
comment above each one says what it claims.

| item | what it calls |
|---|---|
| `http::method_is_valid` | `http`: parsing a `Method` |
| `http::builder_with_status` | `http`: `Response::builder` and `Builder::status` |
| `http::builder_with_header` | `http`: `Builder::header` |
| `http::is_built` | `http`: `Builder::headers_ref` |
| `options::to_uppercase` | `str::to_uppercase` |
| `server::hash_text` | `Hash` for `str` |
| `text::text_from_bytes` | `String::from_utf8_lossy` |
| the specification in `text` | `String::push` |

Two types are declared without anything being claimed of them: `http`'s response
builder (`http::ExBuilder`) and `PathBuf` (`router::ExPathBuf`). Four names
without a definition stand in these contracts for what a call gives:
`http::built`, `options::uppercase`, `server::with_text` and `text::lossy_text`.
