# mcp_core

Shared building blocks for MCP servers, verified with Verus.

- `src/text.rs`: char-boundary-safe byte slicing (`floor_char_boundary`,
  `ceil_char_boundary`, `char_safe_chunk`) with proofs that chunks never split
  a character and that following the continuation offsets reassembles the text.
- `src/budget.rs`: the response-size budget for tool results
  (`enforce_response_budget`, `BudgetedHandler`), the JSON escaping of the
  recovery hint and the decimal rendering of the error payload, with
  round-trip proofs.
- `src/config/token.rs`: random hex tokens.
- `src/web/session.rs`: constant-time token comparison, `Authorization` header
  checks (Bearer and Basic), and the login and gating decisions.
- `src/testing.rs`: evaluation of tool results for integration tests
  (`text`, `json`, `is_domain_error`).
- `src/chars.rs`: small string helpers the above share.

`app/` holds what acts on those decisions: the rmcp `ServerHandler` impl, the
Streamable HTTP router, the axum handlers and the process-spawning test client.
