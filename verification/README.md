# rustty_core

The logic of Rustty, an SSH/SFTP terminal client, as a library whose
behaviour is stated in contracts and proved with Verus.

## Layout

- `src/` — the verified library. Each module states its model (spec
  functions and views) and the contracts of its functions over it; the laws
  that relate several operations are public proof functions.
  - `tmux/` — the `tmux -CC` control protocol: line parser, layout grammar,
    the client that correlates replies with commands and times them out,
    and the manager that keeps windows and panes.
  - `subst/` — `${…}` templates: parsing, substitution, secret redaction.
  - `scripts/` — saved scripts, their run history, step execution per host
    and the fan-out over many hosts.
  - `sftp/` — remote paths, pipelined transfer windows, transfer controls.
  - `sync/` — the synchronised state and its merge, its encryption with a
    passphrase, remote retries,
    WebDAV listings, OAuth helpers, configuration.
  - `transfer/` — transfer slots, rate, resume and traffic accounting.
  - `socks.rs`, `ssh.rs`, `sessions.rs`, `store.rs`, `shell/`, `codec.rs`,
    `text.rs` — the SOCKS5 handshake, session decisions, the versioned
    store envelope, shell launch, encodings and text helpers.
- `tests/` — tests on concrete values, run against the compiled library.
- `app/` — the parts that do I/O (files, the process environment, serde
  conversions); it calls the library for every decision.

Calls into outside crates (`serde_json`, `chrono`, `sha2`, `base64`,
`urlencoding`, `age`, `regex`) and a few std functions stand behind small trusted items whose
doc comments say what their contracts claim.
