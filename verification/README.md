# ironclaw

Tools and providers of the IronClaw agent, verified with Verus.

- `src/` is the library. It switches the model of a language-model provider,
  checks and runs searches of arXiv and of the web with Tavily, reads Atom feeds,
  and decides which requests are sent again. Its functions have contracts, and
  the properties that span functions are the `law_*` proof functions.
- `tests/` runs the library with `serde_json` and `rust_decimal`.
- `app/` is the code around the library: the host that sends requests, the JSON
  that comes in, and the lock around a provider that threads share.

JSON values are those of `serde_json`. What the library believes of it stands in
`src/json.rs`; what it believes of the standard library, in `src/http.rs` and at
the top of `src/text.rs`.
