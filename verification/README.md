# agentbox

AgentBox is a desktop companion for the Qwen Code CLI: it keeps a database of
model providers, writes them into the CLI's `settings.json`, runs a local
model proxy that rewrites credentials per provider and records token usage,
serves a small MCP server with web, academic and page-fetch tools, and shows
statistics over the CLI's session files.

## Layout

- `src/` is the verified library (Verus). Every public function states its
  result in `ensures` over spec functions of plain values (`Seq`, `Map`,
  integers) and the mathematical view `JVal` of JSON documents.
  - `json`, `text`, `seqs`, `order`, `numfmt`, `tally`: JSON values and their
    view, string and sequence helpers, string order, number formatting and
    counting.
  - `auth`, `upstream`, `usage`, `engine`, `routing`, `client_pool`,
    `compression`: the proxy's decisions (header rewriting, upstream URLs,
    usage extraction from SSE and JSON bodies, routing bookkeeping, client
    reuse).
  - `config`, `settings_edit`, `sync`, `discovery`, `preset_sync`, `presets`,
    `paths`, `db`: settings files (JSONC, dotted paths), synchronisation of
    providers into the settings, discovery of configured providers and
    completion from the provider templates.
  - `sessions`, `analytics`, `metrics`, `catalog`: session files, statistics
    and the skills/memories/agents/extensions catalogue.
  - `mcp`, `arxiv`, `queries`, `skills`, `installer`: the MCP tools'
    planning, the service addresses, and the reading of search, paper and
    release answers.
- `tests/` holds the tests of the library.
- `app/` is ordinary Rust around the library: SQLite storage, file and
  network I/O, the axum servers, the npm installer and the float statistics.

Laws that relate several functions are public proof functions named
`lemma_*` next to the functions they speak of.
