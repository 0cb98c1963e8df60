# parcom_streams

Streams and sequences for incremental parsers, with their logic verified by
Verus.

## Layout

- `src/` — the verified library.
  - `generic_stream/` — a stream over a chain of buffers appended by a loader:
    the chain and its positions (`chain`), moving a head forward (`advance`),
    handing out segments (`segments`, `segment_iter`), the loader
    (`loader`), its parameters (`parameter`) and the state that the loading
    task and the readers share (`stream`).
  - `sequences/` — a sequence buffer and its loader with a pluggable buffer
    strategy.
  - `stream_driver` — the counters and decisions of the concurrent loading
    driver (when to suspend and resume loading, how loading ends).
  - `node_init`, `oneshot`, `notify`, `once_init` — the state machines behind
    lazily loaded nodes, the one-shot channel, signals and once-cells.
  - `buffer_writer`, `vecdeque_buffer_writer`, `stream_control`,
    `iterator_source`, `utf8_validator` — writing loaded data into buffers,
    and a source that passes on only valid UTF-8.
  - `str_char_stream` — a character stream over texts that a source hands
    over one at a time.
  - `slice`, `str_stream`, `identity`, `error`, `load_info` — small streams and
    helpers.
  - `bin_expr`, `repeat` — the grammars of the examples: binary expressions
    with precedence, and repeated atoms.
- `tests/` — tests of the library.
- `app/` — the examples' `main`, the loading task's async loop, and the
  runtime plumbing (threads, statics, pinning) that stays unverified.
