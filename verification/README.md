# derisk_stellar_events

Turns the Soroban contract events of Stellar ledgers into rows for a
Postgres database, with the logic verified by Verus.

- `src/` — the verified library:
  - `text` — decimal and lower-case hex rendering, with their specifications
    and the lemmas that renderings are injective;
  - `event` — networks, contract events (values kept in their XDR encoding),
    the stored record, its identifier `<ledger>_<index>`, and the conversion
    of a ledger's events into records;
  - `ledger` — the parts of closed-ledger metadata that carry events, and the
    records of a run of historic ledgers;
  - `streaming` — the counters of the live stream and their report every
    hundred ledgers;
  - `db` — connection URLs and the cutting of rows into insert batches;
  - `laws` — properties across functions: unique identifiers within a ledger
    and across ledgers, consecutive numbering, batches that partition the
    rows, and the report cadence.
- `app/` — stellar-core ingestion, the database, the StellarX HTTP API and the
  command-line entry points, around the library.
- `tests/` — tests of the library against the real outside crates.
