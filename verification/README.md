# mcpub

A public directory of MCP endpoints (a JSON-RPC 2.0 / MCP server with
`submit`, `search`, `list_all` and `get` tools, whose state is a CSV file,
and `search_live` and `list_all_live`, which read the spider's latest scan
and show only the endpoints it found alive), and a spider that probes
endpoints for liveness and tools and writes the directory's data format.

The library in `src/` holds the logic, verified with Verus:

- `text`, `number`: character-level string work (trimming, prefixes,
  substring search) and decimal integers, specified over `Seq<char>`.
- `sanitize`: descriptions and submitted URLs, domains, the well-known check.
- `store`: endpoints and their CSV records (`csv_text` wraps the `csv` crate).
- `json`: the JSON model that requests and answers are read through.
- `directory`: the request handler, search and paging, and submissions.
- `handshake`, `retry`, `probe`, `spider`: the spider's exchanges, retry
  policy, probe state machine, descriptions and output rows.
- `clock`: the current Unix time.

`app/` runs both programs (`mcpub` serves the directory, `mcpub spider ...`
scans endpoints): HTTP, files, the async runtime and serde conversions.
