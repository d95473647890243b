# create_rust_app_core

The scaffolding engine behind the `create-rust-app` command line, written
in Verus: the engine's decisions are executable functions with contracts,
and the properties that span functions are proof functions. What stays
outside the library is file, network and process work.

- `src/` — the verified library:
  - `text`, `paths`: characters, trimming, searching, path joining;
  - `catalog`: catalog entries, where the catalog is read from, listings;
  - `scaffold`: project names, `--set` overrides, source resolution, cache
    keys and locations, fetch modes, git arguments, the steps of a run,
    copy plans, fragment appends, the project record, error messages;
  - `manifest`: renaming the crate in `Cargo.toml`, reading its names,
    rewriting references at identifier boundaries;
  - `merge`: merging an overlay `Cargo.toml` over a model of both
    manifests, planned as a list of edits;
  - `merge_text`: the same merge on manifest texts, read and edited
    through `toml_edit`;
  - `config`: the project record merged into `cra.config.json` through
    `serde_json`;
  - `cli`: the order in which a run handles its flags, listings, the
    cache command, JSON output;
  - `info`: the banner, the environment summary, the cache directory.
- `app/` — the command line: argument parsing, files, network, git and
  cargo processes, and parsing the catalog's JSON into the library's types.
- `tests/` — tests of the library on concrete values.
