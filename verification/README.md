# herdr-freeze

A Herdr plugin that freezes panes nobody uses: once the processes of a pane have been
idle for long enough, they are suspended, and the name of the pane gets a `❄`. Coming
to the pane brings it back at once. Panes can be frozen on Windows; elsewhere nothing
is suspended.

## Layout

- `src/` decides. Every function there has a contract that Verus proves.
  - `session.rs` runs the monitor: what it asks for next, and what it does with the
    answer. `monitor.rs` holds what it knows of the panes. `guarantees.rs` states what
    holds of every step of a session, `rounds.rs` what holds of whole rounds.
  - `event_stream.rs` follows Herdr's socket, `api.rs` reads what the `herdr` program
    answers, `state.rs` is about the files.
  - `freezer.rs` suspends and resumes a tree of processes step by step,
    `cpu_sample.rs` adds up CPU times and tells how busy a pane is.
  - `cli.rs` is the command line, `overlay.rs` the sheet over a frozen pane,
    `label.rs` the mark on a name.
  - `json.rs`, `string_map.rs`, `text.rs` and `platform.rs` are what the rest stands on.
- `app/` acts: it starts programs, reads files and sockets, suspends processes, and
  hands the answers to the library.
- `tests/` runs the library on concrete values.

## What is believed without proof

`json.rs` reads and writes JSON with `serde_json`; `text.rs` states what two functions
of the standard library do. Each such item says what it claims.
