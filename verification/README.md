# guroku

A package manager for the JavaScript ecosystem, whose decision logic is a
Verus-verified library.

- `src/` is the library. Every function in it carries a `requires`/`ensures`
  contract that Verus proves: dependency-spec classification, npm semver
  selection, the `package.json` and `guroku.lock` models, `.npmrc` and
  override lookup, the breadth-first resolver (as a state machine), what
  surrounds the PubGrub solver (root planning, metadata prefetch, the
  solver's questions, turning its answer into a resolution), integrity
  checks, the content-addressed store layout, tarball extraction plans,
  git clone plans, script and `exec` commands, linking plans, audit
  requests and reports, and workspace discovery.
- Calls into outside crates (`node-semver`, `url`, `sha2`, `base64`, `hex`,
  `flate2`/`tar`, `serde_json`, `dirs`) sit behind small trusted wrappers
  whose contracts name or state what they return.
- `app/` is the `guroku` program: argument parsing (clap), HTTP (reqwest),
  the file system, processes, the PubGrub solver with its dependency
  provider, and logging. It reads and writes, and asks the library what to
  do.
- `tests/` exercises the library on concrete values.

The breadth-first resolver settles each name at its first request and
reports a later range that the settled version does not meet as a conflict
at once; it does not backtrack. PubGrub, the default, does. Tarball
extraction writes the entries that come before an unsafe path, or before a
point where the archive cannot be read, and then fails.
