# pesde

A package manager for Luau, as a library whose behaviour is stated in Verus
contracts and proved, with a thin command line program around it.

## Layout

- `src/` — the verified library.
  - `names`, `package_name` — package names (pesde, standard and Wally
    names): parsing, printing, escaping, with round-trip laws.
  - `version` — semantic versions and requirements, backed by `semver`.
  - `manifest` — manifests, targets, realms and overrides.
  - `dependencies` — specifiers and references of registry, git and Wally
    packages, Wally manifests, manifest conversion, and `resolution`: the
    dependency graph built from a manifest, its lockfile reuse, overrides,
    realms and peer checks, driven step by step by the caller.
  - `index` — index configuration, download URLs, index selection and
    adding versions to an index file.
  - `auth` — the default token, per-URL token overrides and git credentials.
  - `patches` — which patch file goes to which package, and where.
  - `lockfile`, `keyed`, `strmap` — the graph and the ordered maps it uses.
  - `linking`, `linking_file` — which linking modules a graph needs and
    their text.
  - `install`, `publish`, `commands`, `login`, `updates`, `cli`, `project` —
    what the commands decide: lockfile reuse, binary links, publish includes
    and export checks, the entry an added dependency gets,
    dependency keys, the device-flow login steps, self-update versions.
- `tests/` — tests of the library on concrete values.
- `app/` — the `pesde` program: argument handling, files, git checkouts of
  indices and git dependencies, the resolution loop, downloads, linking,
  publishing (checking, archiving and uploading a package; `--dry-run`
  writes the archive instead), adding dependencies, and the update check.
