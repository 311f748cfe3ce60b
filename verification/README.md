# logmon-core

The core of a log and trace broker, verified with Verus. Programs send it GELF
and OTLP; clients read, filter and export what it buffers, set triggers and
bookmarks, measure spans, and capture cases.

## Layout

- `src/` is the library: what decides or computes, but for floating point. Each
  function states what it returns and what it changes, and Verus proves it.
  - `gelf`, `receiver`: reading records and spans off the wire, and counting
    what is lost on the way
  - `engine`, `store`: seqs, buffers, and what the buffers can vouch for
  - `filter`: the filter language, its references to bookmarks, and which
    filters may be armed
  - `logs`, `span`: profiles and field maps of records; spans and traces
  - `domain_data`: the registry of facts of a domain
  - `daemon`: domains, sessions' triggers, the daemon's own life, and what its
    methods read and decide (`daemon/rpc`)
  - `json`, `clock`, `text`, `text_map`, `ranking`, `rejection`: shared ground
- `app/` performs what the library decides: sockets, files, signals, tasks and
  the wire format. It also holds the arithmetic on durations in floating point,
  such as the shares and quantiles of spans. What a broker brings along, such as
  its sessions and its store of spans, are the traits of `app/host.rs`.
- `tests/` runs the library on concrete values.

Promises that hold across functions are public proof functions beside the
functions that they speak of.

## What is trusted

Calls into `chrono`, `regex`, `serde_json`, `tokio` and a few functions of the
standard library. Each stands behind one item whose comment says what is
believed of it.
