# blitzortung_srv

Lightning data service: a JSON-RPC web service that counts strikes in grids, and
the tools that fill and query its PostgreSQL database.

The rules of the service are a library whose functions carry contracts that
Verus proves. The program around it moves bytes.

## Layout

- `src/` — the verified library
  - `jsonrpc`, `service`, `request`, `cache` — documents, their validation, the
    production of grids and the caches
  - `http`, `transport` — requests, responses and frames
  - `query`, `db`, `executor`, `postgres`, `mock` — SQL, statements and rows
  - `data`, `builder`, `geom`, `area`, `wkb`, `raster`, `websocket`, `feed` —
    strikes, grids and the formats that they come in
  - `config`, `metrics`, `service_log`, `util` — configuration, metric lines,
    the usage log and time arithmetic
  - `dataimport`, `cli` — the importers and the decisions of the tools
  - `text`, `number`, `natural`, `decimal`, `json`, `ieee`, `clock` — the ground
    they stand on
- `tests/` — tests of the library
- `app/` — the program: sockets, files, the database driver, HTTP clients,
  argument parsing, and floating point arithmetic

## Conventions

Instants are `i64` microseconds since the Unix epoch. A floating point number is
a `Real`, its IEEE 754 bits: the library compares, truncates and stores such
numbers, and the program computes them. The one exception is the fraction of a
second in a timestamp: `decimal` rounds it as double precision does, with
integers.

Work that waits for the outside is cut into steps: the library says what to do
next, the program does it and hands in the outcome. `RegionImport`,
`CollectedImport`, `RequestHead`, `HeaderReader`, `ServicelogWriter` and
`Service::after_cells` are of this form.

What comes from `chrono`, `chrono-tz`, `flate2`, `rand` and from parts of `std`
without a specification is trusted. Each such function says in its
documentation what is believed of it.
