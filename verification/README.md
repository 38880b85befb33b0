# gateway

The verified core of an MCP gateway, a reverse proxy that routes clients to
named MCP servers with per-server credentials, per-client rate limiting and a
request log.

- `src/` is the library, verified with Verus:
  - `config` — the configuration, server lookup and the sealing of API keys;
  - `vault` — AES-256-GCM sealing of credentials, `base64(nonce || ciphertext)`;
  - `rate_limit` — token buckets per client address and server, with exact
    integer refills, and the laws of bursts and waits;
  - `routes` — the decision on each request (400, 404, 503, 429 or forward)
    and its completion into a response status and a log record;
  - `proxy` — hop-by-hop headers, upstream URLs, credential injection and JSON
    error bodies;
  - `usage`, `logger`, `cli`, `text` — token counts, log records, the CLI's
    output, and the text functions the rest is built on.
- `app/` is the program around it: the HTTP server (axum, reqwest), the SQLite
  request log, the TOML configuration file, response-body parsing and the
  `mcpgw` command-line tool (run when the binary is named `mcpgw`).
- `tests/` exercises the library on concrete values.
