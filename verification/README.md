# openparts-server

The OpenParts distribution API: search, part/device/package lookup,
provenance, revisions and content-addressed CAD artifacts over HTTP, read
only.

- `src/` is the library, verified with Verus: the in-memory index
  (`store`, `keyed`), the route queries (`routes`: search, lookups,
  revisions, artifact links, model inputs and the validation/generation
  decisions), the errors and how they are answered (`error`), artifact
  content hashing (`hash`), the loader's decisions (`loader`), the port
  setting (`config`), ordering and substring search on characters (`text`,
  `sort`), and properties spanning several operations (`laws`).
- `app/` is the server around it: the axum router and handlers, the
  directory walk and file reads of the loader, and the calls into the
  OpenParts data, validator and CAD crates.
- `tests/` exercise the library on a small index shaped like the data set.

The index keeps each kind of entity in a vector with distinct keys, read
as a map, rather than in a `HashMap<String, _>`: with `String` keys,
vstd's hash-map specifications are not known to prove even a lookup after
an insert, so the hash-map form was not attempted, and the vector form
lets every lookup and insertion be proved against the map view.
