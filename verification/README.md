# firefly_omni

A file-perception and extraction library written in Verus: the decisions
about what a file is, which text and metadata are kept, how tags are named,
normalized and gated, which statements are sent to the lexical database and
what is made of the rows it returns, and how a file search or a duplicate
scan is planned are executable Rust whose behaviour is stated in
`requires` / `ensures` contracts and proved. The rows themselves depend on
the database on disk: the query functions record each statement they run
(`sqlite::Db`) and state it, and the decisions on the rows read are made by
functions that take the rows as arguments.

Layout:

- `src/` — the verified library. Tag identity (`tag_identity`, `tag_table`,
  `slug`, `unicode`, `hashing`), text handling (`text`, `text_decode`,
  `extract_text`), extraction planning (`extract_plan`, `doc_plan`, `docx`,
  `docx_archive`, `tool_paths`, `audio_tools`, `text_lines`), perception
  decisions (`perception`, `fact_tags`, `vision`), the lexical database and
  taxonomy queries (`omw`, `omw_query`, `unmapped`, `taxonomy`,
  `taxonomy_tree`, `sqlite`, `db`, `json`), request handling (`fs_search`,
  `server_api`, `vector_api`, `mcp`), duplicate-scan planning
  (`czkawka_bridge`) and the open-core stand-ins (`pro_stub`).
- `tests/` — tests run against the compiled library.
- `app/` — the program around it: the MCP stdio server, file and process
  I/O, the database connection pool, and the float thresholds.

Calls into outside crates (`rusqlite`, `serde_json`, `regex`, `quick-xml`,
`zip`, `encoding_rs`, `sha2`, `unicode-normalization`) go through small
trusted wrappers whose doc comments say what is assumed of them.
