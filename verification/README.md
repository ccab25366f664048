# codehunt

A small web service (greeting, redirect, IPv4/IPv6 address arithmetic, a
gift-manifest reader, a rate-limited milk counter) whose logic is a Verus
library with machine-checked contracts.

- `src/text.rs` — characters, splitting, trimming, decimal rendering and
  Rust-style integer parsing over `Seq<char>` models.
- `src/ip.rs` — byte XOR, IPv4 destination/key arithmetic, IPv6 group
  expansion and keys, with the laws relating them.
- `src/routes.rs` — greeting, redirect target, media types, milk replies.
- `src/yaml.rs`, `src/tomldoc.rs` — document models, their lookups, and the
  reading of YAML/TOML text through `serde_yaml` and `toml`.
- `src/manifest.rs`, `src/toml_manifest.rs` — the manifest replies.
- `app/` — Rocket routes, the rate limiter's construction and the Shuttle
  entry point.
