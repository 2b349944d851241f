# sync-branch-deps (`sbd`), verified

`sbd` resolves cross-repo feature-branch dependencies to the pre-release
artifacts a sibling repo published for the same branch (`sbd sync`), and
rejects any branch pin before it can merge (`sbd verify`).

The decisions are a verified library; the binary around it only
does I/O.

## Layout

- `src/` — the verified library.
  - `cli.rs` — argument parsing.
  - `config.rs` — `.sync-branch-deps.yaml` as a flat map of key to targets.
  - `git.rs` — the branch from `.git/HEAD`, the `git` binary or the
    environment, in order of authority.
  - `slug.rs` — branch name to registry-safe slug.
  - `reporters*` — output formats (plain, color, GitHub Actions, JSON, quiet).
  - `resolvers*` — registry questions: `.npmrc` handling and packument
    reading for npm; the OCI Distribution manifest probe and its bearer-token
    exchange as a small state machine.
  - `rewriters*` — pinning and pin detection in `package.json` and Compose
    files.
  - `workspace.rs` — the manifests of a repo root as plain values.
  - `lib.rs` — `verify`, and `sync` as a run that asks for registry lookups
    one at a time.
  - `text.rs`, `json.rs`, `json_text.rs` — verified text helpers and the JSON
    model.
- `tests/` — unit and end-to-end tests on in-memory workspaces.
- `app/` — the `sbd` binary: environment, files, `git`, HTTP.
