# moonfire-db

The database layer of a security camera recorder. The library keeps the in-memory picture of a
SQLite database of recordings and decides, step by step, which statement to run next and what a
reply means. It is written in Verus: every function states what it returns or changes, and Verus
proves it.

## Layout

- `src/` is the verified library.
  - `model`, `recording`, `ids`, `days`, `stream`: the data and their views.
  - `load`: from database rows to the in-memory state.
  - `transaction`, `insert`, `delete`, `commit`: changes to recordings.
  - `cameras`, `changer`, `dirs`, `entries`: changes to everything else.
  - `listing`, `aggregate`, `playback`: reading.
  - `ledger`, `summary`, `mirror`, `upkeep`, `reopen`, `links`, `reload`, `batches`, `sums`: what
    holds across operations. Above all, the in-memory state mirrors the tables of the database,
    every operation keeps it so, and opening the database again gives the same state back. Days are
    part of this as long as the calendar says the same of a recording each time it is asked.
  - `calendar`, `collections`, `uuids` and part of `entries` hold the calls into other crates,
    each with a contract that is believed and not proved. `calls` makes those calls whose outcome
    rests on chance or on the machine.
- `app/` runs the statements with `rusqlite` and holds the lock around the state.
- `tests/` runs the library, in part against a SQLite database in memory.

## Statements and replies

An operation that needs the database is a value with a `statement` (or `action`) to perform and a
function that takes the reply. The library never performs I/O itself, and a failed statement may be
handed to it at any point. Where a reply has to meet a condition, such as sums that can be held or
a directory that is known, the function's `requires` says so and `app/` tests it before the call.
