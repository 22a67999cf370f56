# book-feeder

Book feeder sidecar for MetaMesh. One binary hosts two upstreams:

| Upstream | Serves | What it is |
|----------|--------|------------|
| `gutenberg` | `document` x `book` | public-domain editions of Project Gutenberg, by way of Gutendex, with one url locator per record |
| `openlibrary` | `card` x `book` | work cards of Open Library |

The two meet through `openlibraryid`. An edition carries it only where Open Library
itself records the link: exactly one work lists the etext's Project Gutenberg id. A work
without a cover or without a description gets no card.

## Layout

- `src/` is the library, written in Verus: what is asked of the upstreams, how their
  answers are read, and what is published, each with a contract that is proved. It does
  no I/O. Functions whose names begin with `law_` state what holds of the library as a
  whole.
- `app/` is the program around it: HTTP, the rate budget, the kept answers on disk, and
  the plugins of `meta-feeder-sdk`.
- `tests/` runs the library on given answers.

## What is not proved

The library relies on three functions outside it, whose contracts are taken on trust:
`serde_json::from_slice` (with the conversion of its value into `json::Json`),
`str::to_lowercase` and `String::push`. Card locators, url locators and content addresses
are computed by `meta-feeder-sdk` and handed in.

## Configuration

| Env var | Default | Notes |
|---------|---------|-------|
| `META_FEEDER_HTTP_LISTEN` | `0.0.0.0:8080` | listen address |
| `META_FEEDER_STATE_DIR` | `/data/meta-feeder` | cache and state |
| `OPENLIBRARY_CONTACT` | none | e-mail or URL sent in the Open Library User-Agent; a saved `contact` wins |
| `OPENLIBRARY_TOP_N` | `12` | cards per search |
| `OPENLIBRARY_DISCOVERY_N` | `20` | cards per browse row |
| `RUST_LOG` | `info` | tracing filter |
