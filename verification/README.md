# api_proxy

A configurable HTTP/HTTPS API proxy whose decisions are proved correct with
Verus.

## Layout

- `src/` — the verified library:
  - `text.rs` — character-sequence helpers (prefixes, search, replacement,
    splitting, ASCII case folding), each with its mathematical definition.
  - `json.rs` — the JSON value model used by payload validation.
  - `config.rs` — configuration types, the choice of configuration format,
    and rule validation (`Rule::validate` and its parts) against the
    `rule_error` / `conforms` specifications.
  - `path.rs` — field paths such as `sensor.readings[0].value`.
  - `errors.rs` — the error type and the HTTP status of each error.
  - `proxy.rs` — request checks, rule checks of payloads, the upstream URL,
    forwarded headers and cookies, response handling, WebSocket relay
    decisions, and the payload size limiter.
  - `rewrite.rs` — link rewriting in HTML, JavaScript and CSS bodies
    (`regex`, `scraper` and `url` do the matching, parsing and resolving).
  - `server.rs` — routes, HTTP→HTTPS redirects, the HTTPS plan of a server.
  - `cert.rs` — self-signed certificate generation with `rcgen`.
  - `tls.rs` — the certificates and key read from PEM files.
- `tests/` — tests of the library, run against the real outside crates.
- `app/` — the program: configuration files (serde), the `actix-web`
  servers, forwarding with `awc`, the WebSocket relay loop, and TLS setup.

Numbers in JSON payloads and rule bounds are compared through ordering keys:
integers that order as the numbers' double values do. The program computes
them when it reads JSON.

`ApiConfig` has no request or response hooks: such callbacks would take
`actix-web` and `awc` request and response types, which the verified library
cannot hold, and the program, whose configuration comes from a file, would
have no way to set them.

Injected headers and cookies are lists of (name, value) pairs in which each
name occurs once (`ApiConfig::well_formed`); a `Proxy` keeps this as a type
invariant.
