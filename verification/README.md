# forge

The coordination logic of a batch-inference work distributor: one giant JSONL of
independent requests, keyed by `custom_id`, is fanned across workers that speak the
OpenAI API, and every id ends with one terminal result, whatever dies on the way.

`src/` is the library. Every function of it is verified by Verus against the contract in
its header; properties that span functions are stated as `law_` proof functions beside
them.

- Items and files: `item`, `ingest`, `import`, `bucket`, `verify`, `result`, `store`,
  `objstore`, `rows`.
- Queues: `queue` (the rules of leasing), `sqlite`, `redb_queue`, `redb_tables`.
- Workers: `worker`, `retry`, `aimd`, `cooldown`, `load`, `validate`, `failure`, `fleet`.
- Runs: `dispatch`, `run`, `batch_run`, `delivery` (exactly-once effect).
- Spot boxes: `spot`, `wire`, `agent`, `coordinator`.
- The batch API: `openai`, `server`, `registry`, `front_door`.
- The command line: `cli`, `report`, `cost`.
- Shared: `types`, `state`, `error`, `duration`, `clock`, `decimal`, `big`, `double`, `json`,
  `text`, `paths`, `id_set`, `table`.

What the library believes of other crates without proof stands in the functions marked
`external_body` and the `assume_specification` items of `json`, `text`, `duration`,
`clock`, `retry`, `verify`, `objstore` and `openai`, each with a comment that says what is
believed.

`tests/` runs the library. `app/` is the program around it: the command line, files,
databases, sockets and object stores.
