# syncpack

Consistent dependency versions in large JavaScript monorepos, as a library
whose logic is verified with Verus, and a command line around it.

There are two commands, `lint` and `fix`. Both check formatting and
version/range mismatches by default, but can be limited with `--format` and
`--versions`. The config file is read as JSON from stdin.

## Layout

- `src/` — the verified library:
  - `specifier/` — the grammar of version specifiers, simple semver ranges,
    the ordering of versions (through `node-semver`), and the ranges
    whose text `node-semver` cannot read;
  - `group_selector.rs`, `semver_group.rs`, `version_group.rs`, `context.rs` —
    the groups of the config and how instances are sorted into them;
  - `instance.rs`, `dependency.rs`, `instance_state.rs`, `visit_packages.rs` —
    what each instance is found to be, and which specifier it should have;
  - `versions.rs` — fixing: writing expected specifiers back;
  - `json.rs`, `format.rs` — package.json contents, JSON pointers, and the
    formatting rules (shorthand bugs/repository, sorted keys and exports);
  - `packages.rs`, `file_paths.rs`, `cli.rs` — reading packages, choosing
    source patterns, validating command line values.
- `tests/` — tests of the library.
- `app/` — the command line: arguments, stdin, files on disk, terminal output.
