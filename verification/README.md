# vale_ls

A language server for the [Vale](https://vale.sh) prose linter, with its core written and proved in
Verus.

- `src/` is the core. It decides; it does not read files, run programs or talk to a client.
  - `styles`, `vocab`: what styles directories hold, and how a term is added to a vocabulary.
  - `vale`, `version`: which linter is called, with what, and when it is installed anew.
  - `server`, `settings`, `workspace`, `notices`, `lsp`: the state of the server, its answers and
    what it says.
  - `document`, `uri`, `store`, `json`, `regex101`: documents, addresses, maps, values and uploads.
  - `disk`, `path`, `text`, `error`: what the rest is built on. Paths are text with `/` between
    their components; what is on disk is handed in as a `Disk`.
- `app/` is the program: it looks at the disk, runs the linter, downloads it, and speaks the
  protocol.
- `tests/` runs the core on concrete values.

The core calls `dashmap`, `ropey`, `semver`, `tower-lsp` (for addresses) and a few functions of the
standard library. Each such call stands in a small function whose contract is believed, not proved;
its doc comment says what is claimed.
