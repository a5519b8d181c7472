# knope

The verified core of a release tool: where the packages of a project are, and
how the version of a Deno package is read and changed.

- `jsonc`: JSON with comments, and how the comments are removed.
- `json`, `member_names`: JSON documents as trees, read and written with
  `serde_json`, and the names in the text of an object.
- `toml`, `cargo`: TOML documents as trees, read with `toml_edit`, and what a
  `Cargo.toml` says of its package.
- `path`: relative paths, joined, taken apart and compared with `relative-path`.
- `semver`: semantic versions.
- `deno_json`, `action`: the version in a `deno.json` or `deno.jsonc` file, how
  such a file is read and which error it gives, and the step that writes it.
- `versioned_file`: the files that carry the version of a package.
- `package`: packages, and how they are found in Cargo, npm and Deno workspaces,
  in a plain directory, or in a configuration file.

The library under `src/` does no input or output.  `app/` reads the files, matches
the patterns and turns errors into diagnostics.
