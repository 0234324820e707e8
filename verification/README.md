# celld_store

The decisions of a single-machine object store, and of offline transfers between
object-store namespaces, written and proved in Verus.

The library reads nothing and writes nothing. A caller hands it what a
transaction, a listing or a stream has given, and gets back the statements to
carry out, the next thing to fetch, or the answer to return. `src/model.rs` says
what the tables of the store are and what each statement does to them; every
contract of a write speaks of the tables before and after it.

- `storage`, `upload`: conditional puts, deletes, copies, staged uploads, and the
  reclaiming of what nothing refers to any longer.
- `read`, `contents`: conditional and ranged reads, and that they give back the
  bytes that were written.
- `listing`, `page`, `page_laws`, `stream`: ordered listings, pages with a
  delimiter, and that pages and batches add up.
- `laws`: what holds across operations. Every transaction keeps the tables well
  formed and touches no object but its own; ETags are never reused.
- `attributes`, `object`, `path`, `error`, `text`: the values that the store
  handles.
- `memory`, `clock`, `local_storage`: process memory, wall time, and the
  specification of a local database.
- `transfer`: the command line, the manifest, the steps of the copy of one object,
  the verification of a namespace, the audit of its node records, and the course of
  a transfer as a whole.
- `qualify`: what a store must show to be qualified.

`app/` holds the programs around the library: SQLite, the `object_store`
interfaces, files, and the command line. `tests/` runs the library, in part on a
real database.

A call into another crate stands behind a small function marked
`external_body`, or behind an `assume_specification`. Its doc comment names the
function that it calls and says what is believed of it.
