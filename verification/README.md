# llm_firewall

A fail-closed guardrail for OpenAI-compatible LLM traffic, with its request
and response logic verified by Verus.

The library (`src/`) holds the decisions and their contracts:

- `config` — configuration types, defaults, environment overrides and validation.
- `json` — the JSON value the library works on, with its mathematical view.
- `detectors` — prompt injection (Aho-Corasick signatures), DLP and output
  sanitising (regular expressions), system prompt enforcement, tool allow-lists,
  token budgets and rate limits.
- `pipeline` — request and response contexts and the detector pipeline, which
  stops at the first block.
- `proxy` — request admission and envelope validation, upstream request
  preparation, response headers, and `flow::ProxyCore`, which decides what
  happens to a request before and after the upstream call.
- `utils` — audit records, metrics and token estimates.

`app/` is the HTTP server around it: it reads the configuration file and the
environment, reads request and response bodies, parses and prints JSON, calls
the upstream with `reqwest`, and writes audit log lines.
