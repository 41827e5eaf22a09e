# cardapio-geo-api (verified core)

Geocoding and routing API for the state of Alagoas (Brazil), served as a Spin HTTP
component. It proxies Nominatim (forward and reverse geocoding) and OSRM (driving
routes) and checks that coordinates lie inside the operating region.

## Layout

- `src/` — the verified library (Verus):
  - `errors.rs` — `ApiError`, its HTTP status, its text and its JSON reply.
  - `helpers.rs` — URL decoding, query-string parsing, parameter lookup, and the JSON
    reply builders (`json_ok`, `error_json`, `cors_preflight`, `health`, `not_found`).
  - `geocode.rs` — percent-encoding, the `q`/`limit` parameters and the Nominatim
    search URL.
  - `upstream.rs` — what is done with an upstream reply's status and body.
  - `reverse.rs` — what is done with Nominatim's reverse-geocoding answer.
  - `route.rs` — the OSRM URL, the OSRM answer code, the region decision and the
    out-of-range answer.
  - `dispatch.rs` — path/query split of the request target and endpoint selection.
  - `json.rs`, `text.rs`, `reply.rs` — JSON string literals, UTF-8 and decimal text,
    the reply type.
  - `laws.rs` — properties that span several functions.
- `app/` — the Spin component: request/response conversion, the upstream calls, the
  JSON documents and the floating-point coordinate work (`bounds.rs`).
- `tests/` — tests of the library.
