# Tallytail

Tallytail tracks asset allocations, buy and sell transactions and portfolio
positions. This crate holds its logic as a library verified with Verus, and a
thin program around it.

## Layout

- `src/` — the verified library. Every public function states in `ensures`
  what it returns; laws that span several functions are public proof
  functions (`lemma_*`).
  - `text`, `assoc`, `decimal`, `civil` — characters and trimming, small
    association lists, decimals (through `rust_decimal`) and civil dates and
    times (through `jiff`).
  - `isin` — ISIN check digits and the parsing of ISIN lists.
  - `transactions`, `portfolio`, `ledger` — validation of buy and sell
    transactions, portfolio lots and the overview per asset and currency,
    listings of transactions and transaction assets.
  - `assets`, `catalog`, `categories`, `records`, `schema` — assets, their
    categories, the replay of a category configuration, allocation record
    files, and the schema versions of the databases.
  - `access_control`, `lock`, `web` — unlock patterns, the per-client guard
    (three failed attempts block a client for three hours), access tokens.
  - `tar`, `fly_backup` — the backup archive (tar, compressed with gzip
    through `flate2`) and the decisions of the Fly.io backup tool.
  - `display`, `desktop` — what the user interfaces compute from their inputs.
- `tests/` — tests of the library on concrete values.
- `app/` — the web back end (axum), the SQLite and file storage, and the
  backup tool: I/O around the library.
