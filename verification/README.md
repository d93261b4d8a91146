# explore_tui

The logic of a terminal explorer for logs, profiles, traces and metrics behind a
Grafana server, and of a language server for LogQL, written in Verus.

- `src/` is the library. Every function states what it computes, and Verus
  proves it.
  - `logql/`: tokens, parser with error recovery, analyzer and completion, and
    number literals as doubles, computed on whole numbers (`bignum`).
  - `lsp/`: positions, diagnostics and completion of documents.
  - `prometheus/`, `loki/`, `tempo/`, `pyroscope/`, `list`, `time_range_picker`:
    the screens, event by event.
  - `model`, `app`, `view`: the state, what each event does to it, and what is
    shown of it.
  - `time_range`, `timestamps`: relative and absolute ranges, and dates.
  - `laws`: what holds across events.
- `tests/` runs the library on values.
- `app/` is the program around it: the server's protocol, the shell's types, and
  what is floating point.
