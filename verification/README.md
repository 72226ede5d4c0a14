# phoenix_db

A key-value database whose values are JSON documents, written in Verus.

- `src/` is the verified library: the table (`store`), the protocol types
  (`protocol`), the commands `INSERT`, `LOOKUP`, `DELETE`, their bulk forms,
  `CREATE`, `DESTROY` and `EXIT`
  with the routing of network commands (`commands`), value expiry (`ttl`), the
  line-based text protocol (`text_protocol`), the server configuration (`cli`)
  and the properties that relate the commands (`laws`).
- `app/` is the server program: argument parsing, logging, the TCP listeners,
  JSON (de)serialization and the background cleanup task.
- `tests/` runs the library on concrete inputs.
