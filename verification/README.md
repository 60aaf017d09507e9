# file_reservations

Advisory file reservations for agents that work on one project: a verified library
that decides what is granted, released, renewed and refused, and a thin layer around
it that talks to the database, the archive and the guard.

- `src/` is the library. Each tool is a chain of steps: a step takes what the outside
  world answered and says what is needed next, or what to answer. Every step has a
  contract, and Verus proves it.
  - `acquire`, `release`, `renew`, `force`, `conflict` and `guard` are the tools, and
    `callers` says how the answer to a conflict check depends on who asks.
  - `intent` is the log of releases that could not reach the database, and `archive`
    the artifacts that mirror the reservations.
  - `filter`, `paths` and `patterns` say which paths a request is about, as the
    `machine` reads them.
  - `errors` and `model` are what the tools answer with.
  - `text`, `json`, `digest`, `grants` and `arith` are the ground under them. The
    functions of `serde_json`, `sha2`, `hex` and `smallvec` that the library calls are
    wrapped there, each with what is taken for granted about it; those of `std::path`
    that a Windows machine needs are wrapped in `machine`.
- `app/` holds the tools over a `Host`, which has the database, the archive and the
  guard; the release-intent log on disk; and the answers as they go over the wire.
- `tests/` runs the library, the tools over a mail store in memory.

What each module promises beyond its single steps stands in it as a public proof
function: that what is queued is read back, that a path is either granted or in
conflict, that a refused check names every path as off limits, and more.
