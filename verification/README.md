# paper_feeder

An academic-paper feeder: it surfaces papers from **arXiv** and **Europe PMC
(PubMed)** into a gateway over a small HTTP contract. The rules of the feeder are
a library that Verus verifies; the program around it does the input and output.

## Layout

- `src/`: the verified library. Every function states what it returns in its
  `ensures`; what holds across functions stands in the proof functions named
  `law_…`.
- `app/`: the program: the axum routes, the requests to the upstreams, the `redb`
  cache, the JSON forms of what goes over the wire.
- `tests/`: tests of the library from outside.

## The contract

| Endpoint | Purpose |
|----------|---------|
| `GET /manifest` | the hosted plugins and what they serve |
| `GET /health` | how the plugins are doing |
| `POST /query`, `POST /query_stream` | searches, at once or as NDJSON |
| `POST /compute` | resolve a record to its file |
| `GET /fetch/:upstream_id/:record_id` | a record's bytes |
| `GET /blob/:upstream_id/:cid` | a blob by its content identifier |
| `GET /config`, `GET /config/schema`, `GET\|PUT /config/values` | settings |

## Configuration

| Variable | Default | |
|----------|---------|-|
| `META_FEEDER_HTTP_LISTEN` | `0.0.0.0:8080` | listen address |
| `META_FEEDER_STATE_DIR` | `/data/meta-feeder` | caches and settings |
| `SCIHUB_MIRRORS` | unset | comma-separated Sci-Hub mirrors; no Sci-Hub upstream is built in, so setting it only logs a warning |
| `RUST_LOG` | `info` | tracing filter |

## What is trusted

The tokens that `quick-xml` reads from a document, the replacement of references
by it, the JSON objects that `serde_json` reads and writes, the SHA-256 digest of
`sha2`, the base64 text of `base64`, and `String::push`, `String::push_str` and
`str::from_utf8` of the standard library.
Each has a contract in `src/` that says what is claimed of it.
