# guardrail

A transparent OpenAI chat-completions proxy that sits in front of an
OpenAI-compatible backend and makes small models' tool calls reliable.

`src/` is the verified library:

- `passthrough` — which headers cross the proxy hop, where a request goes,
  which requests and replies the guardrail loop handles, and how the backend
  base URL is normalised.
- `json` — the JSON values the guardrails read and write, their model, and
  the calls into `serde_json` that parse and print them.
- `decode` — decoding a chat-completion response into native tool calls or
  text, and re-emitting tool calls in canonical form.
- `rescue` — parsers that recover tool calls written into the text
  (Mistral, rehearsal, Qwen-Coder, Qwen, Hermes, Llama, fenced and bare JSON).
- `validate` — checking calls against the declared tools, with the
  corrective nudge for the first problem.
- `respond` / `model` — the synthetic `respond` tool.
- `retry` — the retry budget and the nudge message.
- `guardrails` — the loop that decides, for each backend response, whether to
  forward it, reply with a repaired one, or ask again.
- `text` — character-level search, split, trim and string building.

`app/main.rs` is the server: argument parsing, the HTTP exchange with the
backend, and streaming, with every decision taken by the library.
