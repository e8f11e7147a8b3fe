# koc_core

A verified core for a game-automation client: the BON codec, the `x` and
`lx` payload ciphers, message framing, the capture inspector of the relay,
and the decisions of the daily run, the tower climbs, the cars, the monthly
top-ups, the dream shop and the scheduler; the batch configuration's bins,
groups, formations and dream shops; and the body outlines of the command
catalog.

- `src/` is the library, written in Verus. Each public function states what
  it returns in its contract, and the laws (round trips of the codec and the
  ciphers, what the bookkeeping keeps) are proof functions named `law_*`.
  Calls into outside crates (`lz4_flex`, `rand`, `base64`, `md-5`, `url`)
  and a few parts of std go through small trusted wrappers, each with a doc
  comment that says what its contract claims.
- `tests/` runs the library on concrete values.
- `app/` is the command line around the library: file I/O, the clock, JSON
  conversion and printing.
