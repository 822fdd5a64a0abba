# serylane

The verified core of Serylane, a desktop manager for a Mihomo (Clash Meta) proxy
core. The library in `src/` is written in Verus: its logic is proved against
`requires`/`ensures` contracts. Calls into outside crates (`sha2`, `url`,
`toml_edit`, `uuid`) and a few `std` functions sit behind small trusted wrappers;
their contracts are stated from the crates' documentation and source, not proved.

## Layout

- `src/error.rs` — error kinds, their codes, stages and messages.
- `src/text.rs`, `src/sorted.rs`, `src/data.rs` — character-level helpers, sorted
  string sets, and the plain tree that decoded YAML/JSON documents are read as.
- `src/digest.rs`, `src/weblink.rs` — SHA-256 in hexadecimal and URL parts, over
  the `sha2` and `url` crates.
- `src/version.rs`, `src/app_update.rs`, `src/update_check.rs`,
  `src/update_session.rs` — strict versions, official release locations, manifest
  checks, the choice among release channels, and the updater's session.
- `src/config.rs` — inspection of Mihomo profiles.
- `src/stability.rs`, `src/stability_state.rs` — evidence-based failover for the
  OpenAI group and the state of its check loop.
- `src/program_proxy.rs` — the list of programs launched through the proxy and the
  launch plan of each.
- `src/codex.rs`, `src/toml_text.rs` — the reversible lease on the Codex
  configuration: what attaching installs, what restoring puts back, and the
  `toml_edit` reads and edits they are made of.
- `src/startup.rs`, `src/commands.rs` — login entries, startup behaviour (the
  core's ready timeout, TUN start failures) and the rules the commands check.
- `src/traffic.rs`, `src/tray_icon.rs` — transfer-rate texts and the pixel tray icon.

`tests/` exercises the library with concrete values. `app/` is ordinary Rust: it
decodes YAML/JSON documents, reads and writes files (the Codex configuration and
its lease journal among them), launches processes, and gives the library's types
their serde forms. The stability loop, the updater commands and the other
desktop-shell plumbing of the full application are not part of it.
