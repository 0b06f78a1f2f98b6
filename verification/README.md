# binary-alpha

The rules of a binary-options research and execution system, proved with Verus: what may be
fetched, imported, built, carried over, authorized, dispatched, reconciled and archived.

- `src/` is the library: decisions and their contracts, from the bytes or values that they are
  made on.
  - `fetch`: backward paging from a fixed end, overlaps, verified coverage, the choice of a
    baseline, bundles of raw pages, and what a store of progress is told.
  - `lineage`: verified ranges, days and their evidence, migrations, the choice of the newest
    generation and of an archived catalog, the root and the descendants of a lineage with their
    documents, and the reclamation of single pages.
  - `import`: declared paths, inventories, daily archives, bar collections, how a dataset is
    described, and which manifest becomes ready.
  - `features`: tables, plans, the reuse of fits, and the making and verification of a generation.
  - `live`: the beginning and the end of a run, leases and dispatch claims, the journal,
    authorization, ticks and breaks of the market, vetoes of entries, ordered dispatch, recovery
    and reconciliation, and the compatibility receipt.
  - `inspect`: the finite checks of a broker and their report.
  - `config`, `dataset`, `store`: what a command needs of a configuration, the manifest of a
    generation, and objects that are written once.
- `app/` is the executable around it: arguments, files, threads and the control database.
- `tests/` runs the library on values.

Times are microseconds of the Unix epoch. Prices and volumes of bars are carried as integers,
one for each distinct provider value. Digests are SHA-256 in hexadecimal.
