# albion_market

The catalogue service behind an Albion Online market monitor: items,
artefacts and resources with their prices per city, kept in SurrealDB and
refreshed from the Albion Online data service.

- `src/` is the library, verified with Verus: naming of entries from their
  item ids (`naming`), the ordering of listings (`listing`), the records and
  their JSON resources (`items`, `artefacts`, `resources`, `person`, `json`),
  price synchronisation planning and its run status (`prices`), pass-through
  price queries (`market`), seeding of the catalogue from recipes and the
  localised names file
  (`seeding`), and text helpers (`text`).
- `tests/` runs the library on concrete values.
- `app/` is the HTTP server: it reads files, talks to the database and the
  data service, and hands plain values to the library.
