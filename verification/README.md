# subforge_core

The verified core of a proxy-subscription manager, written in Verus. It parses
subscriptions (URI lists, Clash and sing-box documents) into proxy nodes,
extracts routing templates, decides how subscriptions are downloaded and
decoded, and holds the request guards and rules of the management API.

## Layout

- `src/` — the library. Its own functions carry contracts that Verus proves;
  the calls into other crates and into std stand behind small trusted
  wrappers, whose contracts Verus takes as given and which say in their doc
  comments what is assumed.
  - `text`, `table`, `order`: character sequences, keyed tables, text order.
  - `json`, `yaml`, `codec`, `clock`: document models and the calls into
    `serde_json`, `serde_yaml`, `url`/`reqwest`, `base64`, `time`, behind
    trusted wrappers whose contracts say what is assumed of them.
  - `uri`, `url_parsers`, `vmess`, `subscription`: proxy URI lists.
  - `clash`, `singbox`, `routing`: configuration documents and routing templates.
  - `fetch`: retries, response checks, content decoding (`brotli`, `flate2`),
    request headers and log redaction.
  - `security`, `server`, `web`: rate limiting, authentication failures,
    caches, host and path rules, exported-profile headers.
  - `script`, `refresh`: script-plugin stage results and refresh reports.
  - `archive`, `config`: plugin packages (`zip`) and plugin configurations (`regex`).
- `tests/` — tests run against the compiled library.
- `app/` — ordinary Rust around the library: network and file I/O, locks and
  clocks, serde forms of the library's types, and floating-point checks.
